//! The command kernel: registered commands and what a command line asks of them.
use vstd::prelude::*;
use crate::text;
use crate::cli::command::{Signature, SignatureSpec, parse_signature, ArgSpec, OptSpec};
use crate::cli::exit::ExitCode;
use crate::cli::input::{Input, parse_input};
use crate::cli::output::{Output, table_spec};

verus! {

/// A command of the command line.
pub trait Command: Send + Sync {
    /// The command's signature, where the command states it.
    open spec fn known_signature(&self) -> Option<Seq<char>> {
        None
    }

    /// The command's description, where the command states it.
    open spec fn known_description(&self) -> Option<Seq<char>> {
        None
    }

    /// The command's signature; its first word is the command's name.
    fn signature(&self) -> (s: &str)
        ensures
            text::split_ws(s@).len() > 0,
            self.known_signature() matches Some(x) ==> s@ == x,
    ;

    fn description(&self) -> (s: &str)
        ensures
            self.known_description() matches Some(x) ==> s@ == x,
    ;

    /// What `handle` returns for an input and output, where the command knows it.
    open spec fn outcome(&self, input: Input, output: Output) -> Option<ExitCode> {
        None
    }

    fn handle(&self, input: &Input, output: &Output) -> (r: ExitCode)
        ensures
            self.outcome(*input, *output) matches Some(c) ==> r == c,
    ;
}

/// What the kernel knows of a registered command.
pub ghost struct EntrySpec {
    pub name: Seq<char>,
    pub signature: Seq<char>,
    pub description: Seq<char>,
}

struct Entry {
    name: String,
    signature: String,
    description: String,
}

pub struct Kernel {
    commands: Vec<Entry>,
    /// The command of each entry, at the same position.
    handlers: Vec<Box<dyn Command>>,
    name: String,
    version: String,
}

/// What a command line asks for.
pub enum KernelAction {
    /// Print these lines; the run succeeds.
    Print(Vec<String>),
    /// Run the command at this position with this input.
    Run(usize, Input),
    /// Report this error, then print these lines; the arguments were invalid.
    NotFound(String, Vec<String>),
}

pub open spec fn entry_names(es: Seq<EntrySpec>) -> Seq<Seq<char>> {
    es.map_values(|e: EntrySpec| e.name)
}

/// No two entries share a name.
pub open spec fn names_distinct(es: Seq<EntrySpec>) -> bool {
    forall|i: int, j: int| 0 <= i < j < es.len() ==> es[i].name != es[j].name
}

/// The description of the command with this name.
pub open spec fn description_of(es: Seq<EntrySpec>, name: Seq<char>) -> Seq<char> {
    es[choose|k: int| 0 <= k < es.len() && es[k].name == name].description
}

/// The rows of the command list: `list` first, then the commands in `order`.
pub open spec fn list_rows(es: Seq<EntrySpec>, order: Seq<Seq<char>>) -> Seq<Seq<Seq<char>>> {
    seq![seq!["  list"@, "List commands"@]] + Seq::new(
        order.len(),
        |i: int| seq![seq![' ', ' '] + order[i], description_of(es, order[i])],
    )
}

/// The lines of the command list, the commands in the order of `str`.
pub open spec fn is_list_lines(es: Seq<EntrySpec>, ansi: bool, lines: Seq<Seq<char>>) -> bool {
    exists|order: Seq<Seq<char>>|
        text::sorted(order) && order.to_multiset() == entry_names(es).to_multiset() && lines
            == table_spec(ansi, list_rows(es, order))
}

pub open spec fn version_line(name: Seq<char>, version: Seq<char>) -> Seq<char> {
    name + " v"@ + version
}

/// The lines of the general help around the command list.
pub open spec fn help_lines(name: Seq<char>, version: Seq<char>, list: Seq<Seq<char>>) -> Seq<
    Seq<char>,
> {
    seq![
        seq![' '] + version_line(name, version),
        seq![],
        "USAGE:"@,
        "  viontin <command> [options]"@,
        seq![],
        "AVAILABLE COMMANDS:"@,
    ] + list + seq![seq![], "For more info:"@, "  viontin <command> --help"@]
}

pub open spec fn arg_line(a: ArgSpec) -> Seq<char> {
    seq![' ', ' '] + a.name + seq![' '] + if a.required {
        "(required)"@
    } else {
        "(optional)"@
    }
}

pub open spec fn opt_line(o: OptSpec) -> Seq<char> {
    seq![' ', ' ', '-', '-'] + o.name + (if o.has_value {
        " (value)"@
    } else {
        " (flag)"@
    }) + match o.default {
        Some(d) => " (default: "@ + d + seq![')'],
        None => seq![],
    }
}

/// The lines of a command's own help.
pub open spec fn command_help_lines(signature: Seq<char>, description: Seq<char>) -> Seq<Seq<char>> {
    let sig = parse_signature(signature);
    seq!["DESCRIPTION:"@, seq![' ', ' '] + description, seq![], "USAGE:"@, "  viontin "@ + signature]
        + (if sig.arguments.len() > 0 {
        seq![seq![], "ARGUMENTS:"@] + sig.arguments.map_values(|a: ArgSpec| arg_line(a))
    } else {
        seq![]
    }) + (if sig.options.len() > 0 {
        seq![seq![], "OPTIONS:"@] + sig.options.map_values(|o: OptSpec| opt_line(o))
    } else {
        seq![]
    }) + seq![
        seq![],
        "GLOBAL OPTIONS:"@,
        "  -h, --help    Show help"@,
        "  -V, --version Show version"@,
    ]
}

/// The position of the entry with this name.
pub open spec fn entry_index(es: Seq<EntrySpec>, name: Seq<char>, k: int) -> bool {
    0 <= k < es.len() && es[k].name == name
}

proof fn lemma_push_len<A>(s: Seq<A>, a: A)
    ensures
        s.push(a).len() == s.len() + 1,
{
}

proof fn lemma_remove_len<A>(s: Seq<A>, i: int)
    requires
        0 <= i < s.len(),
    ensures
        s.remove(i).len() == s.len() - 1,
{
}

proof fn lemma_insert_len<A>(s: Seq<A>, i: int, a: A)
    requires
        0 <= i <= s.len(),
    ensures
        s.insert(i, a).len() == s.len() + 1,
{
}

/// The entry of a command with this signature and description, named by the
/// signature's first word.
pub open spec fn entry_of(signature: Seq<char>, description: Seq<char>) -> EntrySpec {
    EntrySpec { name: parse_signature(signature).name, signature, description }
}

/// `out` is `es` with the entry `e` put in the place of the entry of its name, or
/// added at the end where there is none.
pub open spec fn placed(es: Seq<EntrySpec>, e: EntrySpec, out: Seq<EntrySpec>) -> bool {
    &&& parse_signature(e.signature).name == e.name
    &&& ((exists|k: int| entry_index(es, e.name, k) && out == es.update(k, e)) || ((forall|k: int|
        !entry_index(es, e.name, k)) && out == es.push(e)))
}

/// The word after the program name, or nothing.
pub open spec fn command_word(args: Seq<Seq<char>>) -> Seq<char> {
    if args.len() > 1 {
        args[1]
    } else {
        seq![]
    }
}

pub open spec fn asks_help(args: Seq<Seq<char>>) -> bool {
    exists|i: int| 0 <= i < args.len() && (args[i] == "--help"@ || args[i] == "-h"@)
}

/// The input is what parsing these words against this signature gives.
pub open spec fn input_from(input: Input, raw: Seq<Seq<char>>, sig: SignatureSpec) -> bool {
    let st = parse_input(raw, sig);
    &&& input.name_view() == sig.name
    &&& input.sig_view() == sig
    &&& input.args_view() == seq![sig.name] + st.positional
    &&& input.options_map() == st.options
    &&& input.flag_set() == st.flags
}

pub open spec fn print_of(a: KernelAction) -> Seq<Seq<char>> {
    match a {
        KernelAction::Print(v) => text::str_views(v@),
        _ => seq![],
    }
}

impl Kernel {
    pub closed spec fn entries(&self) -> Seq<EntrySpec> {
        self.commands@.map_values(
            |e: Entry| EntrySpec { name: e.name@, signature: e.signature@, description: e.description@ },
        )
    }

    pub closed spec fn name_view(&self) -> Seq<char> {
        self.name@
    }

    pub closed spec fn version_view(&self) -> Seq<char> {
        self.version@
    }

    /// Each entry's name is the first word of its signature, and no name repeats.
    /// How many commands the kernel can run.
    pub closed spec fn handler_count(&self) -> nat {
        self.handlers@.len()
    }

    /// A well-formed kernel has a command to run for each of its entries, at the same
    /// position; so the position that `plan` gives is one that `run_command` runs.
    pub proof fn lemma_handlers_match(&self)
        requires
            self.wf(),
        ensures
            self.handler_count() == self.entries().len(),
    {
    }

    /// What the command at position `k` returns for an input and output, where it
    /// knows it.
    pub closed spec fn handler_outcome(&self, k: int, input: Input, output: Output) -> Option<ExitCode> {
        self.handlers@[k].outcome(input, output)
    }

    pub closed spec fn wf(&self) -> bool {
        &&& self.handler_count() == self.entries().len()
        &&& names_distinct(self.entries())
        &&& forall|k: int|
            0 <= k < self.entries().len() ==> text::split_ws(
                (#[trigger] self.entries()[k]).signature,
            ).len() > 0 && parse_signature(self.entries()[k].signature).name
                == self.entries()[k].name
    }

    pub fn new() -> (r: Kernel)
        ensures
            r.wf(),
            r.entries() == Seq::<EntrySpec>::empty(),
            r.name_view() == "Viontin"@,
            r.version_view() == "0.1.0"@,
    {
        let r = Kernel {
            commands: Vec::new(),
            handlers: Vec::new(),
            name: text::owned("Viontin"),
            version: text::owned("0.1.0"),
        };
        proof {
            assert(r.entries() =~= Seq::<EntrySpec>::empty());
        }
        r
    }

    pub fn name(self, name: &str) -> (r: Kernel)
        ensures
            r.entries() == self.entries(),
            r.wf() == self.wf(),
            r.name_view() == name@,
            r.version_view() == self.version_view(),
    {
        Kernel { commands: self.commands, handlers: self.handlers, name: text::owned(name), version: self.version }
    }

    pub fn version(self, version: &str) -> (r: Kernel)
        ensures
            r.entries() == self.entries(),
            r.wf() == self.wf(),
            r.name_view() == self.name_view(),
            r.version_view() == version@,
    {
        Kernel { commands: self.commands, handlers: self.handlers, name: self.name, version: text::owned(version) }
    }

    /// The position of the command with this name.
    fn find(&self, name: &[char]) -> (r: Option<usize>)
        ensures
            match r {
                Some(k) => entry_index(self.entries(), name@, k as int),
                None => forall|k: int| !entry_index(self.entries(), name@, k),
            },
    {
        let mut k: usize = 0;
        while k < self.commands.len()
            invariant
                k <= self.commands@.len(),
                self.entries().len() == self.commands@.len(),
                forall|j: int| 0 <= j < k ==> !entry_index(self.entries(), name@, j),
            decreases self.commands.len() - k,
        {
            let n = text::chars_of(self.commands[k].name.as_str());
            proof {
                assert(self.entries()[k as int].name == self.commands@[k as int].name@);
            }
            if text::chars_eq(n.as_slice(), name) {
                return Some(k);
            }
            k += 1;
        }
        None
    }

    /// Adds a command under its signature's name, replacing a command of that name.
    fn insert(self, command: Box<dyn Command>, sig: &str, desc: &str) -> (r: Kernel)
        requires
            self.wf(),
            text::split_ws(sig@).len() > 0,
        ensures
            r.wf(),
            r.name_view() == self.name_view(),
            r.version_view() == self.version_view(),
            placed(self.entries(), entry_of(sig@, desc@), r.entries()),
    {
        let parsed = Signature::parse(sig);
        let name = parsed.name;
        let signature = text::owned(sig);
        let description = text::owned(desc);
        let nm = text::chars_of(name.as_str());
        let found = self.find(nm.as_slice());
        let ghost old_entries = self.entries();
        let ghost e = EntrySpec { name: name@, signature: signature@, description: description@ };
        let mut commands = self.commands;
        let mut handlers = self.handlers;
        let entry = Entry { name, signature, description };
        match found {
            Some(k) => {
                let ghost before = commands@;
                commands.set(k, entry);
                if k < handlers.len() {
                    let ghost h0 = handlers@;
                    let _old = handlers.remove(k);
                    proof {
                        lemma_remove_len(h0, k as int);
                    }
                    let ghost h1 = handlers@;
                    handlers.insert(k, command);
                    proof {
                        lemma_insert_len(h1, k as int, command);
                    }
                }
                let ghost after = commands@;
                let r = Kernel { commands, handlers, name: self.name, version: self.version };
                proof {
                    assert(forall|j: int| 0 <= j < after.len() && j != k ==> after[j] == before[j]);
                    assert(before == self.commands@);
                    assert(old_entries.len() == before.len());
                    assert forall|j: int| 0 <= j < old_entries.len() implies #[trigger] r.entries()[j]
                        == old_entries.update(k as int, e)[j] by {
                        if j == k {
                        } else {
                            assert(after[j] == before[j]);
                            assert(r.commands@[j] == before[j]);
                            assert(r.entries()[j] == old_entries[j]);
                        }
                    }
                    assert(r.entries() =~= old_entries.update(k as int, e));
                    assert(old_entries[k as int].name == e.name);
                    assert(parse_signature(e.signature).name == e.name);
                    let re = r.entries();
                    assert forall|i: int, j: int| 0 <= i < j < re.len() implies re[i].name
                        != re[j].name by {
                        assert(re[i].name == old_entries[i].name);
                        assert(re[j].name == old_entries[j].name);
                    }
                    assert forall|q: int| 0 <= q < re.len() implies text::split_ws(
                        (#[trigger] re[q]).signature,
                    ).len() > 0 && parse_signature(re[q].signature).name == re[q].name by {
                        if q != k {
                            assert(re[q] == old_entries[q]);
                        }
                    }
                    assert(r.wf());
                    let ki = k as int;
                    assert(0 <= ki < old_entries.len() && old_entries[ki].name == e.name
                        && r.entries() == old_entries.update(ki, e));
                    assert(entry_index(old_entries, e.name, ki));
                    assert(placed(old_entries, e, r.entries()));
                }
                r
            },
            None => {
                let ghost h0 = handlers@;
                commands.push(entry);
                handlers.push(command);
                proof {
                    lemma_push_len(h0, command);
                }
                let r = Kernel { commands, handlers, name: self.name, version: self.version };
                proof {
                    assert(r.entries() =~= old_entries.push(e));
                    let re = r.entries();
                    assert forall|q: int| 0 <= q < re.len() implies text::split_ws(
                        (#[trigger] re[q]).signature,
                    ).len() > 0 && parse_signature(re[q].signature).name == re[q].name by {
                        if q < old_entries.len() {
                            assert(re[q] == old_entries[q]);
                        }
                    }
                    assert forall|i: int, j: int| 0 <= i < j < re.len() implies re[i].name
                        != re[j].name by {
                        assert(re[i] == old_entries[i]);
                        if j < old_entries.len() {
                            assert(re[j] == old_entries[j]);
                        } else {
                            assert(!entry_index(old_entries, nm@, i));
                        }
                    }
                    assert(r.wf());
                    assert(forall|k: int| !entry_index(old_entries, e.name, k));
                    assert(placed(old_entries, e, r.entries()));
                }
                r
            },
        }
    }

    /// Registers a command under its signature's name, replacing a command of that name.
    pub fn register<C: Command + 'static>(self, command: C) -> (r: Kernel)
        requires
            self.wf(),
        ensures
            r.wf(),
            r.name_view() == self.name_view(),
            r.version_view() == self.version_view(),
            exists|sig: Seq<char>, desc: Seq<char>|
                #[trigger] placed(self.entries(), entry_of(sig, desc), r.entries()) && text::split_ws(sig).len()
                    > 0 && (command.known_signature() matches Some(x) ==> sig == x)
                    && (command.known_description() matches Some(y) ==> desc == y),
    {
        let sig = text::owned(command.signature());
        let desc = text::owned(command.description());
        let r = self.insert(Box::new(command), sig.as_str(), desc.as_str());
        proof {
            assert(placed(self.entries(), entry_of(sig@, desc@), r.entries()));
        }
        r
    }

    /// Registers a boxed command under its signature's name, replacing a command of that name.
    pub fn register_dyn(self, command: Box<dyn Command + 'static>) -> (r: Kernel)
        requires
            self.wf(),
        ensures
            r.wf(),
            r.name_view() == self.name_view(),
            r.version_view() == self.version_view(),
            exists|sig: Seq<char>, desc: Seq<char>|
                #[trigger] placed(self.entries(), entry_of(sig, desc), r.entries()) && text::split_ws(sig).len()
                    > 0 && (command.known_signature() matches Some(x) ==> sig == x)
                    && (command.known_description() matches Some(y) ==> desc == y),
    {
        let sig = text::owned(command.signature());
        let desc = text::owned(command.description());
        let r = self.insert(command, sig.as_str(), desc.as_str());
        proof {
            assert(placed(self.entries(), entry_of(sig@, desc@), r.entries()));
        }
        r
    }

    /// Remove a command by name.
    pub fn remove(self, name: &str) -> (r: Kernel)
        requires
            self.wf(),
        ensures
            r.wf(),
            r.name_view() == self.name_view(),
            r.version_view() == self.version_view(),
            forall|k: int| !entry_index(r.entries(), name@, k),
            r.entries() == self.entries().filter(|e: EntrySpec| e.name != name@),
    {
        let nm = text::chars_of(name);
        let ghost old_entries = self.entries();
        match self.find(nm.as_slice()) {
            Some(k) => {
                let mut commands = self.commands;
                let mut handlers = self.handlers;
                commands.remove(k);
                if k < handlers.len() {
                    handlers.remove(k);
                }
                let r = Kernel { commands, handlers, name: self.name, version: self.version };
                proof {
                    assert(r.entries() =~= old_entries.remove(k as int));
                    lemma_filter_remove_unique(old_entries, k as int, name@);
                }
                r
            },
            None => {
                proof {
                    lemma_filter_none(old_entries, name@);
                }
                self
            },
        }
    }
}

proof fn lemma_filter_none(es: Seq<EntrySpec>, name: Seq<char>)
    requires
        forall|k: int| !entry_index(es, name, k),
    ensures
        es.filter(|e: EntrySpec| e.name != name) == es,
    decreases es.len(),
{
    reveal_with_fuel(Seq::filter, 1);
    if es.len() > 0 {
        assert forall|k: int| !entry_index(es.drop_last(), name, k) by {
            if entry_index(es.drop_last(), name, k) {
                assert(entry_index(es, name, k));
            }
        }
        lemma_filter_none(es.drop_last(), name);
        assert(!entry_index(es, name, es.len() - 1));
        assert(es.drop_last().push(es.last()) =~= es);
    }
}

proof fn lemma_filter_remove_unique(es: Seq<EntrySpec>, k: int, name: Seq<char>)
    requires
        names_distinct(es),
        entry_index(es, name, k),
    ensures
        es.filter(|e: EntrySpec| e.name != name) == es.remove(k),
        forall|j: int| !entry_index(es.remove(k), name, j),
        names_distinct(es.remove(k)),
    decreases es.len(),
{
    reveal_with_fuel(Seq::filter, 1);
    let r = es.remove(k);
    assert forall|j: int| !entry_index(r, name, j) by {
        if 0 <= j < r.len() {
            if j < k {
                assert(r[j] == es[j]);
            } else {
                assert(r[j] == es[j + 1]);
            }
        }
    }
    if k == es.len() - 1 {
        assert(es.remove(k) =~= es.drop_last());
        assert forall|j: int| !entry_index(es.drop_last(), name, j) by {
            if entry_index(es.drop_last(), name, j) {
                assert(es[j].name == name);
            }
        }
        lemma_filter_none(es.drop_last(), name);
    } else {
        lemma_filter_remove_unique(es.drop_last(), k, name);
        assert(es.drop_last().remove(k).push(es.last()) =~= es.remove(k));
        assert(es.last().name != name);
    }
}


/// What the kernel answers to a command line.
pub open spec fn plan_spec(
    es: Seq<EntrySpec>,
    name: Seq<char>,
    version: Seq<char>,
    ansi: bool,
    args: Seq<Seq<char>>,
    a: KernelAction,
) -> bool {
    let cmd = command_word(args);
    if cmd.len() == 0 || cmd == "--help"@ || cmd == "-h"@ {
        a is Print && exists|l: Seq<Seq<char>>|
            is_list_lines(es, ansi, l) && print_of(a) == help_lines(name, version, l)
    } else if cmd == "--version"@ || cmd == "-V"@ {
        a is Print && print_of(a) == seq![version_line(name, version)]
    } else if cmd == "list"@ {
        a is Print && is_list_lines(es, ansi, print_of(a))
    } else if exists|k: int| entry_index(es, cmd, k) {
        let k = choose|k: int| entry_index(es, cmd, k);
        if asks_help(args) {
            a is Print && print_of(a) == command_help_lines(es[k].signature, es[k].description)
        } else {
            match a {
                KernelAction::Run(j, input) => j == k && input_from(
                    input,
                    args.skip(2),
                    parse_signature(es[k].signature),
                ),
                _ => false,
            }
        }
    } else {
        match a {
            KernelAction::NotFound(err, lines) => err@ == "Command not found: "@ + cmd && exists|
                l: Seq<Seq<char>>,
            |
                is_list_lines(es, ansi, l) && text::str_views(lines@) == seq![
                    seq![],
                    "  Did you mean one of these?"@,
                ] + l,
            _ => false,
        }
    }
}

/// Copies a list of strings.
fn copy_strings(v: &Vec<String>) -> (r: Vec<String>)
    ensures
        text::str_views(r@) == text::str_views(v@),
{
    let mut r: Vec<String> = Vec::new();
    let mut i: usize = 0;
    while i < v.len()
        invariant
            i <= v@.len(),
            text::str_views(r@) == text::str_views(v@).take(i as int),
        decreases v.len() - i,
    {
        let x = text::owned(v[i].as_str());
        proof {
            text::lemma_str_views_push(r@, x);
            text::lemma_str_views_take_push(v@, i as int);
        }
        r.push(x);
        i += 1;
    }
    proof {
        assert(text::str_views(v@).take(v@.len() as int) =~= text::str_views(v@));
    }
    r
}

fn lines_append(out: &mut Vec<String>, more: &Vec<String>)
    ensures
        text::str_views(final(out)@) == text::str_views(old(out)@) + text::str_views(more@),
{
    let mut i: usize = 0;
    while i < more.len()
        invariant
            i <= more@.len(),
            text::str_views(out@) == text::str_views(old(out)@) + text::str_views(more@).take(
                i as int,
            ),
        decreases more.len() - i,
    {
        let x = text::owned(more[i].as_str());
        proof {
            text::lemma_str_views_push(out@, x);
            text::lemma_str_views_take_push(more@, i as int);
            assert(text::str_views(out@).push(x@) =~= text::str_views(old(out)@) + text::str_views(
                more@,
            ).take(i + 1));
        }
        out.push(x);
        i += 1;
    }
    proof {
        assert(text::str_views(more@).take(more@.len() as int) =~= text::str_views(more@));
    }
}

fn push_line(out: &mut Vec<String>, line: &str)
    ensures
        text::str_views(final(out)@) == text::str_views(old(out)@).push(line@),
{
    let x = text::owned(line);
    proof {
        text::lemma_str_views_push(out@, x);
    }
    out.push(x);
}

impl Kernel {
    /// The lines of the command list.
    pub fn list_lines(&self, output: &Output) -> (r: Vec<String>)
        requires
            self.wf(),
        ensures
            is_list_lines(self.entries(), output.ansi(), text::str_views(r@)),
    {
        let ghost es = self.entries();
        let mut names: Vec<String> = Vec::new();
        let mut i: usize = 0;
        while i < self.commands.len()
            invariant
                es == self.entries(),
                i <= self.commands@.len(),
                text::str_views(names@) == entry_names(es).take(i as int),
            decreases self.commands.len() - i,
        {
            let x = text::owned(self.commands[i].name.as_str());
            proof {
                text::lemma_str_views_push(names@, x);
                assert(entry_names(es).take(i + 1) =~= entry_names(es).take(i as int).push(x@));
            }
            names.push(x);
            i += 1;
        }
        proof {
            assert(entry_names(es).take(self.commands@.len() as int) =~= entry_names(es));
        }
        let order = text::sort_strings(names);
        let ghost ov = text::str_views(order@);
        let mut rows: Vec<Vec<String>> = Vec::new();
        let mut head: Vec<String> = Vec::new();
        head.push(text::owned("  list"));
        head.push(text::owned("List commands"));
        proof {
            reveal_strlit("  list");
            reveal_strlit("List commands");
            assert(text::str_views(head@) =~= seq!["  list"@, "List commands"@]);
        }
        rows.push(head);
        let mut j: usize = 0;
        proof {
            assert(crate::cli::output::row_views(rows@)[0] == text::str_views(head@));
            assert(crate::cli::output::row_views(rows@) =~= list_rows(es, ov).take(1));
        }
        while j < order.len()
            invariant
                es == self.entries(),
                self.wf(),
                ov == text::str_views(order@),
                ov.to_multiset() == entry_names(es).to_multiset(),
                j <= order@.len(),
                crate::cli::output::row_views(rows@) == list_rows(es, ov).take(j + 1),
            decreases order.len() - j,
        {
            let nm = text::chars_of(order[j].as_str());
            let cell = text::cat("  ", order[j].as_str());
            let found = self.find(nm.as_slice());
            let desc = match found {
                Some(k) => text::owned(self.commands[k].description.as_str()),
                None => String::new(),
            };
            proof {
                reveal_strlit("  ");
                assert(ov[j as int] == nm@);
                assert(ov.contains(nm@));
                vstd::seq_lib::to_multiset_contains(ov, nm@);
                vstd::seq_lib::to_multiset_contains(entry_names(es), nm@);
                let w = choose|w: int| 0 <= w < entry_names(es).len() && entry_names(es)[w] == nm@;
                assert(entry_index(es, nm@, w));
                let k = found->0 as int;
                assert(entry_index(es, nm@, k));
                let c = choose|c: int| 0 <= c < es.len() && es[c].name == nm@;
                assert(c == k);
                assert(desc@ == description_of(es, nm@));
            }
            let mut row: Vec<String> = Vec::new();
            row.push(cell);
            row.push(desc);
            proof {
                assert(text::str_views(row@) =~~= seq![seq![' ', ' '] + ov[j as int], description_of(es, ov[j as int])]);
                assert(crate::cli::output::row_views(rows@.push(row)) =~= crate::cli::output::row_views(rows@).push(text::str_views(row@)));
                assert(list_rows(es, ov).take(j + 2) =~= list_rows(es, ov).take(j + 1).push(list_rows(es, ov)[j + 1]));
                assert(crate::cli::output::row_views(rows@.push(row)) =~= list_rows(es, ov).take(
                    j + 2,
                ));
            }
            rows.push(row);
            j += 1;
        }
        proof {
            assert(list_rows(es, ov).take(order@.len() + 1int) =~= list_rows(es, ov));
        }
        output.table_lines(rows)
    }

    /// The lines of a command's own help.
    pub fn command_help(signature: &str, description: &str) -> (r: Vec<String>)
        requires
            text::split_ws(signature@).len() > 0,
        ensures
            text::str_views(r@) == command_help_lines(signature@, description@),
    {
        let sig = Signature::parse(signature);
        let ghost sv = parse_signature(signature@);
        let mut out: Vec<String> = Vec::new();
        push_line(&mut out, "DESCRIPTION:");
        let d = text::cat("  ", description);
        push_line(&mut out, d.as_str());
        push_line(&mut out, "");
        push_line(&mut out, "USAGE:");
        let u = text::cat("  viontin ", signature);
        push_line(&mut out, u.as_str());
        proof {
            reveal_strlit("  ");
            reveal_strlit("");
        }
        let ghost part1 = text::str_views(out@);
        let mut args_part: Vec<String> = Vec::new();
        if sig.arguments.len() > 0 {
            push_line(&mut args_part, "");
            push_line(&mut args_part, "ARGUMENTS:");
            let mut i: usize = 0;
            proof {
                reveal_strlit("");
                assert(text::str_views(args_part@) =~~= seq![seq![], "ARGUMENTS:"@] + sv.arguments.map_values(
                    |a: ArgSpec| arg_line(a),
                ).take(0));
            }
            while i < sig.arguments.len()
                invariant
                    sv == sig@,
                    i <= sig.arguments@.len(),
                    text::str_views(args_part@) == seq![seq![], "ARGUMENTS:"@] + sv.arguments.map_values(
                        |a: ArgSpec| arg_line(a),
                    ).take(i as int),
                decreases sig.arguments.len() - i,
            {
                let a = &sig.arguments[i];
                let mut l = text::cat3("  ", a.name.as_str(), " ");
                if a.required {
                    l.append("(required)");
                } else {
                    l.append("(optional)");
                }
                proof {
                    reveal_strlit("  ");
                    reveal_strlit(" ");
                    reveal_strlit("(required)");
                    reveal_strlit("(optional)");
                    assert(sv.arguments[i as int] == a@);
                    assert(l@ == arg_line(a@));
                    assert(sv.arguments.map_values(|a: ArgSpec| arg_line(a)).take(i + 1)
                        =~= sv.arguments.map_values(|a: ArgSpec| arg_line(a)).take(i as int).push(
                        l@,
                    ));
                }
                push_line(&mut args_part, l.as_str());
                i += 1;
            }
            proof {
                assert(sv.arguments.map_values(|a: ArgSpec| arg_line(a)).take(
                    sig.arguments@.len() as int,
                ) =~= sv.arguments.map_values(|a: ArgSpec| arg_line(a)));
            }
        } else {
            proof {
                assert(text::str_views(args_part@) =~= Seq::<Seq<char>>::empty());
            }
        }
        let mut opts_part: Vec<String> = Vec::new();
        if sig.options.len() > 0 {
            push_line(&mut opts_part, "");
            push_line(&mut opts_part, "OPTIONS:");
            let mut i: usize = 0;
            proof {
                reveal_strlit("");
                assert(text::str_views(opts_part@) =~~= seq![seq![], "OPTIONS:"@] + sv.options.map_values(
                    |o: OptSpec| opt_line(o),
                ).take(0));
            }
            while i < sig.options.len()
                invariant
                    sv == sig@,
                    i <= sig.options@.len(),
                    text::str_views(opts_part@) == seq![seq![], "OPTIONS:"@] + sv.options.map_values(
                        |o: OptSpec| opt_line(o),
                    ).take(i as int),
                decreases sig.options.len() - i,
            {
                let o = &sig.options[i];
                let mut l = text::cat("  --", o.name.as_str());
                if o.has_value {
                    l.append(" (value)");
                } else {
                    l.append(" (flag)");
                }
                match &o.default {
                    Some(d) => {
                        l.append(" (default: ");
                        l.append(d.as_str());
                        l.append(")");
                    },
                    None => {},
                }
                proof {
                    reveal_strlit("  --");
                    reveal_strlit(" (value)");
                    reveal_strlit(" (flag)");
                    reveal_strlit(" (default: ");
                    reveal_strlit(")");
                    assert(sv.options[i as int] == o@);
                    assert(l@ =~= opt_line(o@));
                    assert(sv.options.map_values(|o: OptSpec| opt_line(o)).take(i + 1)
                        =~= sv.options.map_values(|o: OptSpec| opt_line(o)).take(i as int).push(l@));
                }
                push_line(&mut opts_part, l.as_str());
                i += 1;
            }
            proof {
                assert(sv.options.map_values(|o: OptSpec| opt_line(o)).take(
                    sig.options@.len() as int,
                ) =~= sv.options.map_values(|o: OptSpec| opt_line(o)));
            }
        } else {
            proof {
                assert(text::str_views(opts_part@) =~= Seq::<Seq<char>>::empty());
            }
        }
        lines_append(&mut out, &args_part);
        lines_append(&mut out, &opts_part);
        push_line(&mut out, "");
        push_line(&mut out, "GLOBAL OPTIONS:");
        push_line(&mut out, "  -h, --help    Show help");
        push_line(&mut out, "  -V, --version Show version");
        proof {
            reveal_strlit("");
            assert(text::str_views(out@) =~~= command_help_lines(signature@, description@));
        }
        out
    }

    /// What the command line `args` (the program name first) asks for.
    pub fn plan(&self, args: &[String], output: &Output) -> (r: KernelAction)
        requires
            self.wf(),
        ensures
            plan_spec(
                self.entries(),
                self.name_view(),
                self.version_view(),
                output.ansi(),
                text::str_views(args@),
                r,
            ),
    {
        let ghost av = text::str_views(args@);
        let cmd: Vec<char> = if args.len() > 1 {
            text::chars_of(args[1].as_str())
        } else {
            Vec::new()
        };
        proof {
            assert(cmd@ == command_word(av));
            reveal_strlit("--help");
            reveal_strlit("-h");
            reveal_strlit("--version");
            reveal_strlit("-V");
            reveal_strlit("list");
        }
        let help = text::chars_of("--help");
        let h = text::chars_of("-h");
        if cmd.len() == 0 || text::chars_eq(cmd.as_slice(), help.as_slice()) || text::chars_eq(
            cmd.as_slice(),
            h.as_slice(),
        ) {
            let list = self.list_lines(output);
            let mut out: Vec<String> = Vec::new();
            let vl = text::cat3(self.name.as_str(), " v", self.version.as_str());
            let first = text::cat(" ", vl.as_str());
            push_line(&mut out, first.as_str());
            push_line(&mut out, "");
            push_line(&mut out, "USAGE:");
            push_line(&mut out, "  viontin <command> [options]");
            push_line(&mut out, "");
            push_line(&mut out, "AVAILABLE COMMANDS:");
            lines_append(&mut out, &list);
            push_line(&mut out, "");
            push_line(&mut out, "For more info:");
            push_line(&mut out, "  viontin <command> --help");
            proof {
                reveal_strlit(" ");
                reveal_strlit(" v");
                reveal_strlit("");
                assert(text::str_views(out@) =~~= help_lines(
                    self.name_view(),
                    self.version_view(),
                    text::str_views(list@),
                ));
            }
            return KernelAction::Print(out);
        }
        let ver = text::chars_of("--version");
        let vv = text::chars_of("-V");
        if text::chars_eq(cmd.as_slice(), ver.as_slice()) || text::chars_eq(
            cmd.as_slice(),
            vv.as_slice(),
        ) {
            let mut out: Vec<String> = Vec::new();
            let vl = text::cat3(self.name.as_str(), " v", self.version.as_str());
            proof {
                reveal_strlit(" v");
            }
            push_line(&mut out, vl.as_str());
            proof {
                assert(text::str_views(out@) =~= seq![version_line(self.name_view(), self.version_view())]);
            }
            return KernelAction::Print(out);
        }
        let lst = text::chars_of("list");
        if text::chars_eq(cmd.as_slice(), lst.as_slice()) {
            let list = self.list_lines(output);
            return KernelAction::Print(list);
        }
        match self.find(cmd.as_slice()) {
            Some(k) => {
                proof {
                    let c = choose|c: int| entry_index(self.entries(), cmd@, c);
                    assert(c == k);
                    assert(self.entries()[k as int].signature == self.commands@[k as int].signature@);
                }
                let mut wants_help = false;
                let mut i: usize = 0;
                while i < args.len()
                    invariant
                        av == text::str_views(args@),
                        help@ == "--help"@,
                        h@ == "-h"@,
                        i <= args@.len(),
                        wants_help == exists|q: int|
                            0 <= q < i && (av[q] == "--help"@ || av[q] == "-h"@),
                    decreases args.len() - i,
                {
                    let a = text::chars_of(args[i].as_str());
                    proof {
                        assert(av[i as int] == a@);
                    }
                    if text::chars_eq(a.as_slice(), help.as_slice()) || text::chars_eq(
                        a.as_slice(),
                        h.as_slice(),
                    ) {
                        wants_help = true;
                    }
                    i += 1;
                }
                if wants_help {
                    let lines = Kernel::command_help(
                        self.commands[k].signature.as_str(),
                        self.commands[k].description.as_str(),
                    );
                    return KernelAction::Print(lines);
                }
                let sig = Signature::parse(self.commands[k].signature.as_str());
                let rest: &[String] = if args.len() >= 2 {
                    crate::text::slice_from(args, 2)
                } else {
                    args
                };
                proof {
                    assert(text::str_views(rest@) =~= av.skip(2));
                }
                let input = Input::parse(rest, &sig);
                KernelAction::Run(k, input)
            },
            None => {
                let err = text::cat("Command not found: ", args[1].as_str());
                let list = self.list_lines(output);
                let mut lines: Vec<String> = Vec::new();
                push_line(&mut lines, "");
                push_line(&mut lines, "  Did you mean one of these?");
                lines_append(&mut lines, &list);
                proof {
                    reveal_strlit("");
                    assert(text::str_views(lines@) =~~= seq![seq![], "  Did you mean one of these?"@]
                        + text::str_views(list@));
                    assert(forall|k: int| !entry_index(self.entries(), cmd@, k));
                }
                KernelAction::NotFound(err, lines)
            },
        }
    }

    /// Runs the command at position `k` (as `plan` gives it) on this input.
    pub fn run_command(&self, k: usize, input: &Input, output: &Output) -> (r: ExitCode)
        ensures
            k >= self.handler_count() ==> r == ExitCode::Failure,
            k < self.handler_count() ==> (self.handler_outcome(k as int, *input, *output) matches Some(
                c,
            ) ==> r == c),
    {
        if k < self.handlers.len() {
            self.handlers[k].handle(input, output)
        } else {
            ExitCode::Failure
        }
    }
}
} // verus!
