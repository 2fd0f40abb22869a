//! Domains of an application, the registry of them, and the boundaries between them.
use vstd::prelude::*;
use crate::text;
use crate::errors::FrameworkError;

verus! {

/// A bounded part of an application: its name, the domains it may use, and
/// what it offers to others.
#[derive(Debug, Clone, Copy)]
pub struct Domain {
    pub name: &'static str,
    pub allows: &'static [&'static str],
    pub provides: &'static [&'static str],
}

/// The texts of a list of names.
pub open spec fn strs(s: &[&str]) -> Seq<Seq<char>> {
    s@.map_values(|x: &str| x@)
}

impl Domain {
    pub fn new(name: &'static str) -> (r: Domain)
        ensures
            r.name == name,
            r.allows@.len() == 0,
            r.provides@.len() == 0,
    {
        Domain { name, allows: &[], provides: &[] }
    }

    /// The domains this one may use.
    pub fn allows(self, deps: &'static [&'static str]) -> (r: Domain)
        ensures
            r.name == self.name,
            r.allows == deps,
            r.provides == self.provides,
    {
        Domain { allows: deps, ..self }
    }

    /// What this domain offers.
    pub fn provides(self, api: &'static [&'static str]) -> (r: Domain)
        ensures
            r.name == self.name,
            r.allows == self.allows,
            r.provides == api,
    {
        Domain { provides: api, ..self }
    }
}

/// Domains are equal when their names are.
impl PartialEq for Domain {
    fn eq(&self, other: &Self) -> (r: bool) {
        text::str_eq(self.name, other.name)
    }
}

impl vstd::std_specs::cmp::PartialEqSpecImpl for Domain {
    open spec fn obeys_eq_spec() -> bool {
        true
    }

    open spec fn eq_spec(&self, other: &Domain) -> bool {
        self.name@ == other.name@
    }
}

impl Eq for Domain {
}

fn str_in(list: &[&str], x: &str) -> (r: bool)
    ensures
        r == strs(list).contains(x@),
{
    let mut i: usize = 0;
    while i < list.len()
        invariant
            i <= list@.len(),
            forall|j: int| 0 <= j < i ==> strs(list)[j] != x@,
        decreases list@.len() - i,
    {
        if text::str_eq(list[i], x) {
            proof {
                assert(strs(list)[i as int] == x@);
            }
            return true;
        }
        i += 1;
    }
    false
}

// ───────────────────────── events, listeners, aggregates ─────────────────────────

/// An event raised within a domain.
pub trait DomainEvent {
    fn domain(&self) -> &str;

    fn event_name(&self) -> &str;
}

/// A domain event for ad-hoc use.
#[derive(Debug, Clone)]
pub struct GenericDomainEvent {
    pub domain: String,
    pub name: String,
    pub payload: Option<String>,
}

impl DomainEvent for GenericDomainEvent {
    fn domain(&self) -> (r: &str)
        ensures
            r@ == self.domain@,
    {
        self.domain.as_str()
    }

    fn event_name(&self) -> (r: &str)
        ensures
            r@ == self.name@,
    {
        self.name.as_str()
    }
}

/// Something that reacts to the events of one domain.
pub trait DomainListener: Send + Sync {
    fn domain(&self) -> &str;

    fn handle_domain(&self, event: &dyn DomainEvent);
}

/// An entity that keeps a domain's consistency and records the events it raises.
pub trait AggregateRoot: Send + Sync {
    fn domain(&self) -> &str;

    fn id(&self) -> &str;

    fn events(&self) -> Vec<Box<dyn DomainEvent>>;

    fn clear_events(&mut self);
}

/// Storage of the aggregates of a domain.
pub trait Repository<T: AggregateRoot>: Send + Sync {
    fn domain(&self) -> &str;

    fn save(&self, aggregate: &T) -> Result<(), FrameworkError>;

    fn find_by_id(&self, id: &str) -> Result<Option<T>, String>;

    fn delete(&self, aggregate: &T) -> Result<(), FrameworkError>;
}

// ───────────────────────── the registry ─────────────────────────

/// The names of a list of domains.
pub open spec fn domain_names(ds: Seq<Domain>) -> Seq<Seq<char>> {
    ds.map_values(|d: Domain| d.name@)
}

/// The first domain of the list with that name.
pub open spec fn first_named(ds: Seq<Domain>, name: Seq<char>) -> Option<Domain>
    decreases ds.len(),
{
    if ds.len() == 0 {
        None
    } else if ds[0].name@ == name {
        Some(ds[0])
    } else {
        first_named(ds.drop_first(), name)
    }
}

/// Whether code of domain `from` may use domain `to`: always within a domain and
/// from an unregistered one, else where `from` lists `to` among what it allows.
pub open spec fn allowed(ds: Seq<Domain>, from: Seq<char>, to: Seq<char>) -> bool {
    if from == to {
        true
    } else {
        match first_named(ds, from) {
            Some(d) => strs(d.allows).contains(to),
            None => true,
        }
    }
}

fn position_of(reg: &[Domain], name: &str) -> (r: Option<usize>)
    ensures
        match r {
            Some(k) => k < reg@.len() && first_named(reg@, name@) == Some(reg@[k as int])
                && reg@[k as int].name@ == name@,
            None => first_named(reg@, name@) is None && !domain_names(reg@).contains(name@),
        },
{
    let mut k: usize = 0;
    proof {
        assert(reg@.skip(0) =~= reg@);
    }
    while k < reg.len()
        invariant
            k <= reg@.len(),
            first_named(reg@, name@) == first_named(reg@.skip(k as int), name@),
            forall|j: int| 0 <= j < k ==> reg@[j].name@ != name@,
        decreases reg@.len() - k,
    {
        proof {
            assert(reg@.skip(k as int).drop_first() =~= reg@.skip(k + 1));
            assert(reg@.skip(k as int)[0] == reg@[k as int]);
        }
        if text::str_eq(reg[k].name, name) {
            return Some(k);
        }
        k += 1;
    }
    proof {
        assert(reg@.skip(k as int).len() == 0);
        if domain_names(reg@).contains(name@) {
            let j = choose|j: int| 0 <= j < domain_names(reg@).len() && domain_names(reg@)[j] == name@;
            assert(reg@[j].name@ == name@);
        }
    }
    None
}

/// Adds a domain to the registry, unless one of the same name is there.
pub fn register(reg: &mut Vec<Domain>, domain: Domain)
    ensures
        if domain_names(old(reg)@).contains(domain.name@) {
            final(reg)@ == old(reg)@
        } else {
            final(reg)@ == old(reg)@.push(domain)
        },
{
    match position_of(reg.as_slice(), domain.name) {
        Some(k) => {
            proof {
                assert(domain_names(reg@)[k as int] == domain.name@);
            }
        },
        None => {
            reg.push(domain);
        },
    }
}

/// The registered domains.
pub fn domains(reg: &[Domain]) -> (r: Vec<Domain>)
    ensures
        r@ == reg@,
{
    let mut out: Vec<Domain> = Vec::new();
    let mut i: usize = 0;
    while i < reg.len()
        invariant
            i <= reg@.len(),
            out@ == reg@.take(i as int),
        decreases reg@.len() - i,
    {
        proof {
            assert(reg@.take(i + 1) =~= reg@.take(i as int).push(reg@[i as int]));
        }
        out.push(reg[i]);
        i += 1;
    }
    proof {
        assert(reg@.take(i as int) =~= reg@);
    }
    out
}

/// The registered domain named `name`.
pub fn find(reg: &[Domain], name: &str) -> (r: Option<Domain>)
    ensures
        r == first_named(reg@, name@),
{
    match position_of(reg, name) {
        Some(k) => Some(reg[k]),
        None => None,
    }
}

/// Whether code of domain `from` may use domain `to`.
pub fn is_allowed(reg: &[Domain], from: &str, to: &str) -> (r: bool)
    ensures
        r == allowed(reg@, from@, to@),
{
    if text::str_eq(from, to) {
        return true;
    }
    match find(reg, from) {
        Some(d) => str_in(d.allows, to),
        None => true,
    }
}

// ───────────────────────── boundaries ─────────────────────────

/// An import from one domain into another.
#[derive(Debug, Clone)]
pub struct DomainViolation {
    pub from_domain: String,
    pub to_domain: String,
    pub source_file: String,
    pub imported_path: String,
}

/// Whether a violation breaks a rule of the registry: the importing domain is
/// registered and does not allow the imported one.
pub open spec fn violation_is_error(ds: Seq<Domain>, from: Seq<char>, to: Seq<char>) -> bool {
    match first_named(ds, from) {
        Some(d) => !strs(d.allows).contains(to),
        None => false,
    }
}

impl DomainViolation {
    pub fn is_error(&self, domains: &[Domain]) -> (r: bool)
        ensures
            r == violation_is_error(domains@, self.from_domain@, self.to_domain@),
    {
        match find(domains, self.from_domain.as_str()) {
            Some(d) => !str_in(d.allows, self.to_domain.as_str()),
            None => false,
        }
    }

    pub fn is_warning(&self, domains: &[Domain]) -> (r: bool)
        ensures
            r == !violation_is_error(domains@, self.from_domain@, self.to_domain@),
    {
        !self.is_error(domains)
    }
}

/// The crate an import line names: what follows `use ` up to the first `::`, with
/// the trailing `;` and spaces cut; none for a group (`{`), `super` or `crate`, or
/// when nothing is named.
pub open spec fn import_root(line: Seq<char>) -> Option<Seq<char>> {
    let t = text::trim(line);
    if !text::starts_with(t, "use "@) {
        None
    } else {
        let rest = text::trim(text::trim_end_matches(t.skip(4), seq![';']));
        if text::starts_with(rest, seq!['{']) || text::starts_with(rest, "super"@)
            || text::starts_with(rest, "crate"@) {
            None
        } else {
            let root = text::before_first(rest, "::"@);
            if root.len() == 0 {
                None
            } else {
                Some(root)
            }
        }
    }
}

/// Scanning of the source files of domains for imports across their boundaries.
pub struct DomainBoundary;

impl DomainBoundary {
    /// The crate an import line names, if any.
    pub fn parse_import_path(line: &str) -> (r: Option<String>)
        ensures
            match r {
                Some(p) => import_root(line@) == Some(p@),
                None => import_root(line@) is None,
            },
    {
        let cs = text::chars_of(line);
        let t = text::trim_exec(cs.as_slice());
        let pre = text::chars_of("use ");
        proof {
            reveal_strlit("use ");
        }
        if !text::starts_with_exec(t.as_slice(), pre.as_slice()) {
            return None;
        }
        let after = text::slice_chars(t.as_slice(), 4, t.len());
        proof {
            assert(after@ =~= t@.skip(4));
        }
        let semi = vec![';'];
        let cut = text::trim_end_matches_exec(after.as_slice(), semi.as_slice());
        let rest = text::trim_exec(cut.as_slice());
        let brace = vec!['{'];
        let sup = text::chars_of("super");
        let cr = text::chars_of("crate");
        proof {
            reveal_strlit("super");
            reveal_strlit("crate");
        }
        if text::starts_with_exec(rest.as_slice(), brace.as_slice()) || text::starts_with_exec(
            rest.as_slice(),
            sup.as_slice(),
        ) || text::starts_with_exec(rest.as_slice(), cr.as_slice()) {
            return None;
        }
        let sep = text::chars_of("::");
        proof {
            reveal_strlit("::");
        }
        let root = text::before_first_exec(rest.as_slice(), sep.as_slice());
        if root.len() == 0 {
            None
        } else {
            Some(text::string_of(root.as_slice()))
        }
    }
}

/// The names of `ds`, each at its first place only.
pub open spec fn distinct_names(ds: Seq<Domain>) -> Seq<Seq<char>>
    decreases ds.len(),
{
    if ds.len() == 0 {
        Seq::empty()
    } else {
        let rest = distinct_names(ds.drop_last());
        if rest.contains(ds.last().name@) {
            rest
        } else {
            rest.push(ds.last().name@)
        }
    }
}

/// The violations that an import of `path` by domain `from` in `file` makes, one for
/// each other registered name that occurs in the path.
pub open spec fn path_violations(
    names: Seq<Seq<char>>,
    from: Seq<char>,
    file: Seq<char>,
    path: Seq<char>,
) -> Seq<(Seq<char>, Seq<char>, Seq<char>, Seq<char>)>
    decreases names.len(),
{
    if names.len() == 0 {
        Seq::empty()
    } else {
        let rest = path_violations(names.drop_last(), from, file, path);
        let n = names.last();
        if n != from && text::contains_sub(path, n) {
            rest.push((from, n, file, path))
        } else {
            rest
        }
    }
}

/// The violations of the lines of a file of domain `from`, in order.
pub open spec fn file_violations(
    names: Seq<Seq<char>>,
    from: Seq<char>,
    file: Seq<char>,
    lines: Seq<Seq<char>>,
) -> Seq<(Seq<char>, Seq<char>, Seq<char>, Seq<char>)>
    decreases lines.len(),
{
    if lines.len() == 0 {
        Seq::empty()
    } else {
        let rest = file_violations(names, from, file, lines.drop_last());
        match import_root(lines.last()) {
            Some(p) => rest + path_violations(names, from, file, p),
            None => rest,
        }
    }
}

pub open spec fn violation_views(v: Seq<DomainViolation>) -> Seq<
    (Seq<char>, Seq<char>, Seq<char>, Seq<char>),
> {
    v.map_values(
        |x: DomainViolation| (x.from_domain@, x.to_domain@, x.source_file@, x.imported_path@),
    )
}

/// A source file of a domain: the domain it belongs to, its path and its text.
#[derive(Debug, Clone)]
pub struct DomainFile {
    pub domain: String,
    pub path: String,
    pub content: String,
}

fn distinct_domain_names(ds: &[Domain]) -> (r: Vec<String>)
    ensures
        text::str_views(r@) == distinct_names(ds@),
{
    let mut out: Vec<String> = Vec::new();
    let mut i: usize = 0;
    proof {
        assert(ds@.take(0) =~= Seq::<Domain>::empty());
    }
    while i < ds.len()
        invariant
            i <= ds@.len(),
            text::str_views(out@) == distinct_names(ds@.take(i as int)),
        decreases ds@.len() - i,
    {
        let mut seen = false;
        let mut j: usize = 0;
        while j < out.len()
            invariant
                j <= out@.len(),
                i < ds@.len(),
                seen <==> exists|m: int| 0 <= m < j && text::str_views(out@)[m] == ds@[i as int].name@,
            decreases out@.len() - j,
        {
            proof {
                assert(text::str_views(out@)[j as int] == out@[j as int]@);
            }
            if !seen && text::str_eq(out[j].as_str(), ds[i].name) {
                seen = true;
            }
            j += 1;
        }
        proof {
            assert(ds@.take(i + 1).drop_last() =~= ds@.take(i as int));
            assert(ds@.take(i + 1).last() == ds@[i as int]);
            let sv = text::str_views(out@);
            if seen {
                let m = choose|m: int| 0 <= m < j && text::str_views(out@)[m] == ds@[i as int].name@;
                assert(sv.contains(ds@[i as int].name@));
            } else {
                assert(!sv.contains(ds@[i as int].name@)) by {
                    if sv.contains(ds@[i as int].name@) {
                        let m = choose|m: int| 0 <= m < sv.len() && sv[m] == ds@[i as int].name@;
                        assert(0 <= m < j);
                    }
                }
            }
        }
        if !seen {
            let n = text::owned(ds[i].name);
            proof {
                text::lemma_str_views_push(out@, n);
            }
            out.push(n);
        }
        i += 1;
    }
    proof {
        assert(ds@.take(i as int) =~= ds@);
    }
    out
}

fn path_violations_exec(
    names: &Vec<String>,
    from: &str,
    file: &str,
    path: &str,
    out: &mut Vec<DomainViolation>,
)
    ensures
        violation_views(final(out)@) == violation_views(old(out)@) + path_violations(
            text::str_views(names@),
            from@,
            file@,
            path@,
        ),
{
    let ghost ns = text::str_views(names@);
    let ghost start = violation_views(out@);
    let pc = text::chars_of(path);
    let mut i: usize = 0;
    proof {
        assert(ns.take(0) =~= Seq::<Seq<char>>::empty());
        assert(start + Seq::<(Seq<char>, Seq<char>, Seq<char>, Seq<char>)>::empty() =~= start);
    }
    while i < names.len()
        invariant
            i <= names@.len(),
            ns == text::str_views(names@),
            pc@ == path@,
            violation_views(out@) == start + path_violations(ns.take(i as int), from@, file@, path@),
        decreases names@.len() - i,
    {
        let n = names[i].as_str();
        proof {
            assert(ns.take(i + 1).drop_last() =~= ns.take(i as int));
            assert(ns.take(i + 1).last() == n@);
        }
        let nc = text::chars_of(n);
        if !text::str_eq(n, from) && text::contains_exec(pc.as_slice(), nc.as_slice()) {
            let v = DomainViolation {
                from_domain: text::owned(from),
                to_domain: text::owned(n),
                source_file: text::owned(file),
                imported_path: text::owned(path),
            };
            proof {
                assert(violation_views(out@.push(v)) =~= violation_views(out@).push(
                    (from@, n@, file@, path@),
                ));
            }
            out.push(v);
        }
        i += 1;
    }
    proof {
        assert(ns.take(names@.len() as int) =~= ns);
    }
}

/// The imports across domain boundaries in the given files, file by file and line by
/// line; for each import, one violation per other registered domain whose name
/// occurs in the imported crate's name.
pub fn check_all(files: &[DomainFile], domains: &[Domain]) -> (r: Vec<DomainViolation>)
    ensures
        violation_views(r@) == files_violations(distinct_names(domains@), files@),
{
    let names = distinct_domain_names(domains);
    let ghost ns = distinct_names(domains@);
    let mut out: Vec<DomainViolation> = Vec::new();
    let mut f: usize = 0;
    proof {
        assert(files@.take(0) =~= Seq::<DomainFile>::empty());
        assert(violation_views(out@) =~= Seq::<(Seq<char>, Seq<char>, Seq<char>, Seq<char>)>::empty());
    }
    while f < files.len()
        invariant
            f <= files@.len(),
            text::str_views(names@) == ns,
            violation_views(out@) == files_violations(ns, files@.take(f as int)),
        decreases files@.len() - f,
    {
        let file = &files[f];
        let cs = text::chars_of(file.content.as_str());
        let lines = text::lines_exec(cs.as_slice());
        let ghost ls = text::lines(file.content@);
        let ghost before = violation_views(out@);
        let mut l: usize = 0;
        proof {
            assert(ls.take(0) =~= Seq::<Seq<char>>::empty());
            assert(before + file_violations(ns, file.domain@, file.path@, ls.take(0)) =~= before);
        }
        while l < lines.len()
            invariant
                l <= lines@.len(),
                text::views(lines@) == ls,
                text::str_views(names@) == ns,
                violation_views(out@) == before + file_violations(
                    ns,
                    file.domain@,
                    file.path@,
                    ls.take(l as int),
                ),
            decreases lines@.len() - l,
        {
            let line = text::string_of(lines[l].as_slice());
            proof {
                assert(ls.take(l + 1).drop_last() =~= ls.take(l as int));
                assert(ls.take(l + 1).last() == line@);
            }
            match DomainBoundary::parse_import_path(line.as_str()) {
                Some(p) => {
                    path_violations_exec(
                        &names,
                        file.domain.as_str(),
                        file.path.as_str(),
                        p.as_str(),
                        &mut out,
                    );
                },
                None => {},
            }
            l += 1;
        }
        proof {
            assert(ls.take(lines@.len() as int) =~= ls);
            assert(files@.take(f + 1).drop_last() =~= files@.take(f as int));
        }
        f += 1;
    }
    proof {
        assert(files@.take(files@.len() as int) =~= files@);
    }
    out
}

/// The violations of each file in turn.
pub open spec fn files_violations(names: Seq<Seq<char>>, files: Seq<DomainFile>) -> Seq<
    (Seq<char>, Seq<char>, Seq<char>, Seq<char>),
>
    decreases files.len(),
{
    if files.len() == 0 {
        Seq::empty()
    } else {
        let f = files.last();
        files_violations(names, files.drop_last()) + file_violations(
            names,
            f.domain@,
            f.path@,
            text::lines(f.content@),
        )
    }
}


// ───────────────────────── the service provider ─────────────────────────

/// A domain with the listeners of its events.
pub struct DomainConfig {
    pub domain: Domain,
    pub listeners: Vec<Box<dyn DomainListener>>,
}

impl DomainConfig {
    /// How many listeners the configuration has.
    pub closed spec fn listener_count(&self) -> nat {
        self.listeners@.len()
    }

    pub fn new(domain: Domain) -> (r: DomainConfig)
        ensures
            r.domain == domain,
            r.listener_count() == 0,
    {
        DomainConfig { domain, listeners: Vec::new() }
    }

    /// Adds a listener of the domain's events.
    pub fn listener(self, listener: Box<dyn DomainListener>) -> (r: DomainConfig)
        ensures
            r.domain == self.domain,
            r.listener_count() == self.listener_count() + 1,
    {
        let mut listeners = self.listeners;
        let ghost before = listeners@;
        listeners.push(listener);
        assert(listeners@ == before.push(listener));
        proof {
            lemma_push_len(before, listener);
        }
        assert(listeners@.len() == before.len() + 1);
        DomainConfig { domain: self.domain, listeners }
    }
}

/// The domains of some configurations, in order.
pub open spec fn config_domains(cs: Seq<DomainConfig>) -> Seq<Domain> {
    cs.map_values(|c: DomainConfig| c.domain)
}

proof fn lemma_push_len<A>(s: Seq<A>, a: A)
    ensures
        s.push(a).len() == s.len() + 1,
{
}

/// Registers the configured domains when an application starts.
pub struct DomainServiceProvider {
    domains: Vec<Domain>,
    /// The listeners of each configured domain, at the same position.
    listeners: Vec<Vec<Box<dyn DomainListener>>>,
}

impl DomainServiceProvider {
    /// The configured domains, in order.
    pub closed spec fn configured(&self) -> Seq<Domain> {
        self.domains@
    }

    pub fn new() -> (r: DomainServiceProvider)
        ensures
            r.configured().len() == 0,
    {
        DomainServiceProvider { domains: Vec::new(), listeners: Vec::new() }
    }

    /// Adds a domain's configuration.
    pub fn domain(self, config: DomainConfig) -> (r: DomainServiceProvider)
        ensures
            r.configured() == self.configured().push(config.domain),
    {
        let mut domains = self.domains;
        let mut listeners = self.listeners;
        domains.push(config.domain);
        listeners.push(config.listeners);
        DomainServiceProvider { domains, listeners }
    }

    /// Adds several domains' configurations, in order.
    pub fn with_domains(self, configs: Vec<DomainConfig>) -> (r: DomainServiceProvider)
        ensures
            r.configured() == self.configured() + config_domains(configs@),
    {
        let mut p = self;
        let mut rest = configs;
        let ghost start = p.configured();
        let ghost all = config_domains(configs@);
        while rest.len() > 0
            invariant
                p.configured() + config_domains(rest@) == start + all,
            decreases rest@.len(),
        {
            let ghost before = rest@;
            let c = rest.remove(0);
            proof {
                assert(config_domains(before) =~= seq![c.domain] + config_domains(rest@));
                assert(p.configured().push(c.domain) + config_domains(rest@) =~= p.configured()
                    + config_domains(before));
            }
            p = p.domain(c);
        }
        proof {
            assert(config_domains(rest@) =~= Seq::<Domain>::empty());
            assert(p.configured() + config_domains(rest@) =~= p.configured());
        }
        p
    }

    /// The provider's identifier.
    pub fn id(&self) -> (r: &'static str)
        ensures
            r@ == "domain"@,
    {
        "domain"
    }

    /// Registers each configured domain, in order.
    pub fn register_domains(&self, reg: &mut Vec<Domain>)
        ensures
            final(reg)@ == registered_all(old(reg)@, self.configured()),
    {
        let mut i: usize = 0;
        proof {
            assert(self.domains@.take(0) =~= Seq::<Domain>::empty());
        }
        while i < self.domains.len()
            invariant
                i <= self.domains@.len(),
                reg@ == registered_all(old(reg)@, self.domains@.take(i as int)),
            decreases self.domains@.len() - i,
        {
            proof {
                assert(self.domains@.take(i + 1).drop_last() =~= self.domains@.take(i as int));
            }
            register(reg, self.domains[i]);
            i += 1;
        }
        proof {
            assert(self.domains@.take(i as int) =~= self.domains@);
        }
    }

    /// The lines shown when the provider boots: a count of the registered domains,
    /// then each one with the domains it allows.
    pub fn boot_lines(reg: &[Domain]) -> (r: Vec<String>)
        ensures
            text::str_views(r@) == boot_report(reg@),
    {
        let mut out: Vec<String> = Vec::new();
        let count = text::usize_to_string(reg.len());
        let first = text::cat3("  [domain] ", count.as_str(), " domain(s) registered");
        let ghost header = first@;
        proof {
            text::lemma_str_views_push(out@, first);
            assert(reg@.take(0).map_values(|d: Domain| domain_line(d)) =~= Seq::<Seq<char>>::empty());
            assert(text::str_views(out@.push(first)) =~= seq![header] + reg@.take(0).map_values(
                |d: Domain| domain_line(d),
            ));
        }
        out.push(first);
        let mut i: usize = 0;
        while i < reg.len()
            invariant
                i <= reg@.len(),
                header == "  [domain] "@ + text::decimal(reg@.len() as nat)
                    + " domain(s) registered"@,
                text::str_views(out@) == seq![header] + reg@.take(i as int).map_values(
                    |d: Domain| domain_line(d),
                ),
            decreases reg@.len() - i,
        {
            let d = reg[i];
            let deps = join_names(d.allows);
            let empty = text::str_eq(deps.as_str(), "");
            proof {
                reveal_strlit("");
                assert(""@.len() == 0);
                if deps@.len() == 0 {
                    assert(deps@ =~= ""@);
                }
                assert(empty <==> deps@.len() == 0);
            }
            let shown = if empty {
                text::owned("none")
            } else {
                deps
            };
            let a = text::cat3("    └── ", d.name, " (allows: ");
            let line = text::cat3(a.as_str(), shown.as_str(), ")");
            proof {
                text::lemma_str_views_push(out@, line);
                let dv = joined(strs(d.allows));
                assert(deps@ == dv);
                assert(shown@ == (if dv.len() == 0 {
                    "none"@
                } else {
                    dv
                }));
                assert(line@ =~= domain_line(d));
                assert(reg@.take(i + 1).map_values(|d: Domain| domain_line(d)) =~= reg@.take(
                    i as int,
                ).map_values(|d: Domain| domain_line(d)).push(line@));
            }
            out.push(line);
            i += 1;
        }
        proof {
            assert(reg@.take(i as int) =~= reg@);
            assert(text::str_views(out@) =~= boot_report(reg@));
        }
        out
    }
}

/// The registry after each domain of `ds` is registered in turn.
pub open spec fn registered_all(reg: Seq<Domain>, ds: Seq<Domain>) -> Seq<Domain>
    decreases ds.len(),
{
    if ds.len() == 0 {
        reg
    } else {
        let before = registered_all(reg, ds.drop_last());
        if domain_names(before).contains(ds.last().name@) {
            before
        } else {
            before.push(ds.last())
        }
    }
}

/// Names joined with `, `.
pub open spec fn joined(names: Seq<Seq<char>>) -> Seq<char>
    decreases names.len(),
{
    if names.len() == 0 {
        Seq::empty()
    } else if names.len() == 1 {
        names[0]
    } else {
        joined(names.drop_last()) + ", "@ + names.last()
    }
}

/// How a registered domain is shown when the provider boots.
pub open spec fn domain_line(d: Domain) -> Seq<char> {
    let deps = joined(strs(d.allows));
    "    └── "@ + d.name@ + " (allows: "@ + (if deps.len() == 0 {
        "none"@
    } else {
        deps
    }) + ")"@
}

pub open spec fn boot_report(reg: Seq<Domain>) -> Seq<Seq<char>> {
    seq!["  [domain] "@ + text::decimal(reg.len() as nat) + " domain(s) registered"@]
        + reg.map_values(|d: Domain| domain_line(d))
}

fn join_names(names: &[&str]) -> (r: String)
    ensures
        r@ == joined(strs(names)),
{
    let mut out = String::new();
    let mut i: usize = 0;
    proof {
        assert(strs(names).take(0) =~= Seq::<Seq<char>>::empty());
    }
    while i < names.len()
        invariant
            i <= names@.len(),
            out@ == joined(strs(names).take(i as int)),
        decreases names@.len() - i,
    {
        let ghost prev = strs(names).take(i as int);
        proof {
            assert(strs(names).take(i + 1).drop_last() =~= prev);
            assert(strs(names).take(i + 1).last() == names@[i as int]@);
        }
        if i == 0 {
            out = text::owned(names[i]);
            proof {
                assert(strs(names).take(1) =~= seq![names@[0]@]);
            }
        } else {
            let a = text::cat3(out.as_str(), ", ", names[i]);
            out = a;
        }
        i += 1;
    }
    proof {
        assert(strs(names).take(i as int) =~= strs(names));
    }
    out
}

} // verus!
