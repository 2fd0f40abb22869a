//! Gems: packaged extensions of an application, their registry and their validation.
use vstd::prelude::*;
use crate::text;
use crate::validator::{Outcome, DiagnosticView, error_of, warning_of};

verus! {

/// What a hook of a gem returns.
pub type GemResult = Result<(), String>;

#[derive(Debug, Clone, Copy, PartialEq, Eq)]
pub enum GemKind {
    Integration,
    Platform,
    Database,
    Auth,
    DevTool,
    Theme,
    Custom(&'static str),
}

/// The name of a kind of gem.
pub open spec fn kind_name(k: GemKind) -> Seq<char> {
    match k {
        GemKind::Integration => "Integration"@,
        GemKind::Platform => "Platform"@,
        GemKind::Database => "Database"@,
        GemKind::Auth => "Auth"@,
        GemKind::DevTool => "DevTool"@,
        GemKind::Theme => "Theme"@,
        GemKind::Custom(s) => s@,
    }
}

impl GemKind {
    pub fn as_str(&self) -> (r: &'static str)
        ensures
            r@ == kind_name(*self),
    {
        match self {
            GemKind::Integration => "Integration",
            GemKind::Platform => "Platform",
            GemKind::Database => "Database",
            GemKind::Auth => "Auth",
            GemKind::DevTool => "DevTool",
            GemKind::Theme => "Theme",
            GemKind::Custom(s) => *s,
        }
    }
}

/// What a gem says of itself.
#[derive(Debug, Clone)]
pub struct GemMeta {
    pub name: &'static str,
    pub version: &'static str,
    pub description: &'static str,
    pub kind: GemKind,
    pub homepage: &'static str,
}

impl GemMeta {
    pub fn new(
        name: &'static str,
        version: &'static str,
        description: &'static str,
        kind: GemKind,
    ) -> (r: GemMeta)
        ensures
            r.name == name,
            r.version == version,
            r.description == description,
            r.kind == kind,
            r.homepage@ == ""@,
    {
        GemMeta { name, version, description, kind, homepage: "" }
    }

    pub fn homepage(self, url: &'static str) -> (r: GemMeta)
        ensures
            r.name == self.name,
            r.version == self.version,
            r.description == self.description,
            r.kind == self.kind,
            r.homepage == url,
    {
        GemMeta { homepage: url, ..self }
    }
}

/// A gem: its description and the hooks it runs around a build.
pub trait GemFacade {
    /// The gem's description.
    spec fn meta_spec(&self) -> GemMeta;

    fn meta(&self) -> (r: &GemMeta)
        ensures
            *r == self.meta_spec(),
    ;

    /// What `before_build` returns, where the gem knows it.
    open spec fn before_outcome(&self) -> Option<Result<(), Seq<char>>> {
        None
    }

    /// What `after_build` returns, where the gem knows it.
    open spec fn after_outcome(&self) -> Option<Result<(), Seq<char>>> {
        None
    }

    /// The work before a build; a gem without any returns `Ok(())`.
    fn before_build(&self) -> (r: GemResult)
        ensures
            self.before_outcome() matches Some(o) ==> gem_result_view(r) == o,
    ;

    /// The work after a build; a gem without any returns `Ok(())`.
    fn after_build(&self) -> (r: GemResult)
        ensures
            self.after_outcome() matches Some(o) ==> gem_result_view(r) == o,
    ;
}

/// A hook's result, with the reason of a failure as text.
pub open spec fn gem_result_view(r: GemResult) -> Result<(), Seq<char>> {
    match r {
        Ok(()) => Ok(()),
        Err(e) => Err(e@),
    }
}

/// Work a gem runs before or after a build.
pub trait BuildHook {
    /// What `run` returns, where the hook knows it.
    open spec fn outcome(&self) -> Option<Result<(), Seq<char>>> {
        None
    }

    fn run(&self) -> (r: GemResult)
        ensures
            self.outcome() matches Some(o) ==> gem_result_view(r) == o,
    ;
}

/// A gem made of its description and optional hooks.
pub struct SimpleGem {
    pub meta: GemMeta,
    before_build_fn: Option<Box<dyn BuildHook>>,
    after_build_fn: Option<Box<dyn BuildHook>>,
}

impl SimpleGem {
    pub closed spec fn meta_of(&self) -> GemMeta {
        self.meta
    }

    pub closed spec fn has_before_build(&self) -> bool {
        self.before_build_fn is Some
    }

    pub closed spec fn has_after_build(&self) -> bool {
        self.after_build_fn is Some
    }

    pub fn new(meta: GemMeta) -> (r: SimpleGem)
        ensures
            r.meta_of() == meta,
            !r.has_before_build(),
            !r.has_after_build(),
    {
        SimpleGem { meta, before_build_fn: None, after_build_fn: None }
    }

    /// Sets the hook run before a build.
    pub fn on_before_build(self, f: Box<dyn BuildHook>) -> (r: SimpleGem)
        ensures
            r.meta_of() == self.meta_of(),
            r.has_before_build(),
            r.has_after_build() == self.has_after_build(),
    {
        SimpleGem {
            meta: self.meta,
            before_build_fn: Some(f),
            after_build_fn: self.after_build_fn,
        }
    }

    /// Sets the hook run after a build.
    pub fn on_after_build(self, f: Box<dyn BuildHook>) -> (r: SimpleGem)
        ensures
            r.meta_of() == self.meta_of(),
            r.has_after_build(),
            r.has_before_build() == self.has_before_build(),
    {
        SimpleGem {
            meta: self.meta,
            before_build_fn: self.before_build_fn,
            after_build_fn: Some(f),
        }
    }
}

impl GemFacade for SimpleGem {
    open spec fn meta_spec(&self) -> GemMeta {
        self.meta_of()
    }

    closed spec fn before_outcome(&self) -> Option<Result<(), Seq<char>>> {
        match self.before_build_fn {
            Some(f) => f.outcome(),
            None => Some(Ok(())),
        }
    }

    closed spec fn after_outcome(&self) -> Option<Result<(), Seq<char>>> {
        match self.after_build_fn {
            Some(f) => f.outcome(),
            None => Some(Ok(())),
        }
    }

    fn meta(&self) -> &GemMeta {
        &self.meta
    }

    /// Runs the hook set before a build; without one, succeeds.
    fn before_build(&self) -> (r: GemResult)
        ensures
            !self.has_before_build() ==> r is Ok,
    {
        match &self.before_build_fn {
            Some(f) => f.run(),
            None => Ok(()),
        }
    }

    /// Runs the hook set after a build; without one, succeeds.
    fn after_build(&self) -> (r: GemResult)
        ensures
            !self.has_after_build() ==> r is Ok,
    {
        match &self.after_build_fn {
            Some(f) => f.run(),
            None => Ok(()),
        }
    }
}

/// A gem loaded from a WebAssembly module.
#[derive(Debug)]
pub struct DynamicGem {
    pub meta: GemMeta,
    pub wasm_path: String,
}

impl DynamicGem {
    pub fn new(meta: GemMeta, wasm_path: &str) -> (r: DynamicGem)
        ensures
            r.meta == meta,
            r.wasm_path@ == wasm_path@,
    {
        DynamicGem { meta, wasm_path: text::owned(wasm_path) }
    }
}

impl GemFacade for DynamicGem {
    open spec fn meta_spec(&self) -> GemMeta {
        self.meta
    }

    open spec fn before_outcome(&self) -> Option<Result<(), Seq<char>>> {
        Some(Ok(()))
    }

    open spec fn after_outcome(&self) -> Option<Result<(), Seq<char>>> {
        Some(Ok(()))
    }

    fn meta(&self) -> &GemMeta {
        &self.meta
    }

    fn before_build(&self) -> (r: GemResult) {
        Ok(())
    }

    fn after_build(&self) -> (r: GemResult) {
        Ok(())
    }
}

/// A gem with the name it was installed under.
struct Installed<G> {
    name: String,
    gem: G,
}

/// The installed gems, one per name; by default, gems of any type, boxed.
pub struct GemRegistry<G: GemFacade = Box<dyn GemFacade>> {
    entries: Vec<Installed<G>>,
}

impl GemFacade for Box<dyn GemFacade> {
    open spec fn meta_spec(&self) -> GemMeta {
        (**self).meta_spec()
    }

    open spec fn before_outcome(&self) -> Option<Result<(), Seq<char>>> {
        (**self).before_outcome()
    }

    open spec fn after_outcome(&self) -> Option<Result<(), Seq<char>>> {
        (**self).after_outcome()
    }

    fn meta(&self) -> &GemMeta {
        (**self).meta()
    }

    fn before_build(&self) -> GemResult {
        (**self).before_build()
    }

    fn after_build(&self) -> GemResult {
        (**self).after_build()
    }
}

/// `names` with the one equal to `name` left out.
pub open spec fn without_name(names: Seq<Seq<char>>, name: Seq<char>) -> Seq<Seq<char>>
    decreases names.len(),
{
    if names.len() == 0 {
        Seq::empty()
    } else if names.last() == name {
        without_name(names.drop_last(), name)
    } else {
        without_name(names.drop_last(), name).push(names.last())
    }
}

/// What running hooks in order gives, from position `k` on, for hooks whose results
/// are known or not: the first failure, or success after all of them; unknown where a
/// hook that runs has an unknown result.
pub open spec fn hooks_outcome(os: Seq<Option<Result<(), Seq<char>>>>, k: int) -> Option<Result<(), Seq<char>>>
    decreases os.len() - k,
{
    if k < 0 || k >= os.len() {
        Some(Ok(()))
    } else {
        match os[k] {
            None => None,
            Some(Err(e)) => Some(Err(e)),
            Some(Ok(())) => hooks_outcome(os, k + 1),
        }
    }
}

impl<G: GemFacade> GemRegistry<G> {
    /// The names of the installed gems.
    pub closed spec fn names(&self) -> Seq<Seq<char>> {
        self.entries@.map_values(|e: Installed<G>| e.name@)
    }

    pub closed spec fn wf(&self) -> bool {
        self.names().no_duplicates()
    }

    /// The installed gems, in the order they were installed.
    pub closed spec fn gems(&self) -> Seq<G> {
        self.entries@.map_values(|e: Installed<G>| e.gem)
    }

    /// What each installed gem's hook before a build returns, where it is known.
    pub open spec fn before_outcomes(&self) -> Seq<Option<Result<(), Seq<char>>>> {
        self.gems().map_values(|g: G| g.before_outcome())
    }

    /// What each installed gem's hook after a build returns, where it is known.
    pub open spec fn after_outcomes(&self) -> Seq<Option<Result<(), Seq<char>>>> {
        self.gems().map_values(|g: G| g.after_outcome())
    }

    /// Whether `k` is the first position of a gem named `name`.
    pub closed spec fn first_at(&self, name: Seq<char>, k: int) -> bool {
        &&& 0 <= k < self.names().len()
        &&& self.names()[k] == name
        &&& forall|j: int| 0 <= j < k ==> self.names()[j] != name
    }

    /// The gem installed under `name`, if any.
    pub closed spec fn gem_of(&self, name: Seq<char>) -> Option<G> {
        if self.names().contains(name) {
            Some(self.entries@[choose|k: int| self.first_at(name, k)].gem)
        } else {
            None
        }
    }

    proof fn lemma_wf_first(&self, name: Seq<char>, k: int)
        requires
            self.wf(),
            0 <= k < self.names().len(),
            self.names()[k] == name,
        ensures
            self.first_at(name, k),
    {
        assert forall|j: int| 0 <= j < k implies self.names()[j] != name by {
            assert(self.names()[j] != self.names()[k]);
        }
    }

    proof fn lemma_gem_at(&self, name: Seq<char>, k: int)
        requires
            self.first_at(name, k),
        ensures
            self.gem_of(name) == Some(self.entries@[k].gem),
    {
        assert(self.names().contains(name)) by {
            assert(self.names()[k] == name);
        }
        let c = choose|c: int| self.first_at(name, c);
        assert(self.first_at(name, c));
        if c < k {
            assert(self.names()[c] != name);
        } else if k < c {
            assert(self.names()[k] != name);
        }
    }

    pub fn new() -> (r: GemRegistry<G>)
        ensures
            r.wf(),
            r.names().len() == 0,
    {
        let r = GemRegistry { entries: Vec::new() };
        proof {
            assert(r.names() =~= Seq::<Seq<char>>::empty());
        }
        r
    }

    fn position(&self, name: &str) -> (r: Option<usize>)
        ensures
            match r {
                Some(k) => self.first_at(name@, k as int),
                None => !self.names().contains(name@),
            },
    {
        let mut k: usize = 0;
        while k < self.entries.len()
            invariant
                k <= self.entries@.len(),
                forall|j: int| 0 <= j < k ==> self.names()[j] != name@,
            decreases self.entries@.len() - k,
        {
            if text::str_eq(self.entries[k].name.as_str(), name) {
                return Some(k);
            }
            k += 1;
        }
        None
    }

    /// Installs a gem under its name; a gem of the same name is replaced, where it stood.
    pub fn register(&mut self, gem: G)
        requires
            old(self).wf(),
        ensures
            final(self).wf(),
            ({
                let n = gem.meta_spec().name@;
                if old(self).names().contains(n) {
                    final(self).names() == old(self).names()
                } else {
                    final(self).names() == old(self).names().push(n)
                }
            }),
            final(self).gem_of(gem.meta_spec().name@) == Some(gem),
            forall|n: Seq<char>|
                n != gem.meta_spec().name@ ==> final(self).gem_of(n) == old(self).gem_of(n),
    {
        let ghost old_self = *self;
        let ghost gv = gem;
        let name = text::owned(gem.meta().name);
        let ghost ns = self.names();
        let ghost nm = name@;
        let ghost mut pos: int = ns.len() as int;
        match self.position(name.as_str()) {
            Some(k) => {
                let e = Installed { name, gem };
                let ghost old_entries = self.entries@;
                let ghost ev = e;
                self.entries.set(k, e);
                proof {
                    pos = k as int;
                    assert(self.entries@ == old_entries.update(k as int, ev));
                    assert(self.entries@.len() == old_entries.len());
                    assert forall|j: int| 0 <= j < ns.len() implies #[trigger] self.names()[j] == ns.update(k as int, ev.name@)[j] by {
                        assert(self.names()[j] == self.entries@[j].name@);
                    }
                    assert(self.names() =~= ns.update(k as int, e.name@));
                    assert(ns.update(k as int, e.name@) =~= ns);
                }
            },
            None => {
                let e = Installed { name, gem };
                self.entries.push(e);
                proof {
                    assert(self.names() =~= ns.push(e.name@));
                    assert forall|i: int, j: int|
                        0 <= i < ns.len() + 1 && 0 <= j < ns.len() + 1 && i != j implies ns.push(
                        e.name@,
                    )[i] != ns.push(e.name@)[j] by {
                        if i < ns.len() && j < ns.len() {
                        } else if i == ns.len() {
                            assert(ns[j] != e.name@);
                        } else {
                            assert(ns[i] != e.name@);
                        }
                    }
                }
            },
        }
        proof {
            let ns2 = self.names();
            assert(ns2[pos] == nm);
            assert(self.entries@[pos].gem == gv);
            self.lemma_wf_first(nm, pos);
            self.lemma_gem_at(nm, pos);
            assert forall|n: Seq<char>| n != nm implies self.gem_of(n) == old_self.gem_of(n) by {
                if ns.contains(n) {
                    let k0 = choose|k0: int| 0 <= k0 < ns.len() && ns[k0] == n;
                    old_self.lemma_wf_first(n, k0);
                    old_self.lemma_gem_at(n, k0);
                    assert(k0 != pos);
                    assert(ns2[k0] == n);
                    assert(self.entries@[k0] == old_self.entries@[k0]);
                    self.lemma_wf_first(n, k0);
                    self.lemma_gem_at(n, k0);
                } else {
                    assert(!ns2.contains(n)) by {
                        if ns2.contains(n) {
                            let k1 = choose|k1: int| 0 <= k1 < ns2.len() && ns2[k1] == n;
                            if k1 < ns.len() {
                                assert(ns[k1] == n);
                            }
                        }
                    }
                }
            }
        }
    }

    /// The gem installed under `name`.
    pub fn get(&self, name: &str) -> (r: Option<&G>)
        ensures
            r is Some <==> self.names().contains(name@),
            match r {
                Some(g) => self.gem_of(name@) == Some(*g),
                None => self.gem_of(name@) is None,
            },
    {
        match self.position(name) {
            Some(k) => {
                proof {
                    self.lemma_gem_at(name@, k as int);
                }
                Some(&self.entries[k].gem)
            },
            None => None,
        }
    }

    /// The names of the installed gems.
    pub fn iter(&self) -> (r: Vec<String>)
        ensures
            text::str_views(r@) == self.names(),
    {
        let mut out: Vec<String> = Vec::new();
        let mut k: usize = 0;
        while k < self.entries.len()
            invariant
                k <= self.entries@.len(),
                text::str_views(out@) == self.names().take(k as int),
            decreases self.entries@.len() - k,
        {
            let n = text::owned(self.entries[k].name.as_str());
            proof {
                text::lemma_str_views_push(out@, n);
                assert(self.names().take(k + 1) =~= self.names().take(k as int).push(n@));
            }
            out.push(n);
            k += 1;
        }
        proof {
            assert(self.names().take(self.entries@.len() as int) =~= self.names());
        }
        out
    }

    /// Runs every gem's hook before a build, in order, stopping at the first error.
    pub fn before_build_all(&self) -> (r: GemResult)
        ensures
            self.names().len() == 0 ==> r is Ok,
            hooks_outcome(self.before_outcomes(), 0) matches Some(o) ==> gem_result_view(r) == o,
    {
        let ghost os = self.before_outcomes();
        let mut k: usize = 0;
        while k < self.entries.len()
            invariant
                k <= self.entries@.len(),
                os == self.before_outcomes(),
                os.len() == self.entries@.len(),
                hooks_outcome(os, 0) is Some ==> hooks_outcome(os, 0) == hooks_outcome(os, k as int),
            decreases self.entries@.len() - k,
        {
            let r = self.entries[k].gem.before_build();
            proof {
                assert(os[k as int] == self.entries@[k as int].gem.before_outcome());
            }
            match r {
                Ok(()) => {},
                Err(e) => {
                    return Err(e);
                },
            }
            k += 1;
        }
        Ok(())
    }

    /// Runs every gem's hook after a build, in order, stopping at the first error.
    pub fn after_build_all(&self) -> (r: GemResult)
        ensures
            self.names().len() == 0 ==> r is Ok,
            hooks_outcome(self.after_outcomes(), 0) matches Some(o) ==> gem_result_view(r) == o,
    {
        let ghost os = self.after_outcomes();
        let mut k: usize = 0;
        while k < self.entries.len()
            invariant
                k <= self.entries@.len(),
                os == self.after_outcomes(),
                os.len() == self.entries@.len(),
                hooks_outcome(os, 0) is Some ==> hooks_outcome(os, 0) == hooks_outcome(os, k as int),
            decreases self.entries@.len() - k,
        {
            let r = self.entries[k].gem.after_build();
            proof {
                assert(os[k as int] == self.entries@[k as int].gem.after_outcome());
            }
            match r {
                Ok(()) => {},
                Err(e) => {
                    return Err(e);
                },
            }
            k += 1;
        }
        Ok(())
    }

    /// Uninstalls the gem named `name`, if there is one.
    pub fn remove(&mut self, name: &str)
        requires
            old(self).wf(),
        ensures
            final(self).wf(),
            final(self).names() == without_name(old(self).names(), name@),
            final(self).gem_of(name@) is None,
            forall|n: Seq<char>| n != name@ ==> final(self).gem_of(n) == old(self).gem_of(n),
    {
        let ghost old_self = *self;
        let ghost ns = self.names();
        match self.position(name) {
            Some(k) => {
                proof {
                    lemma_remove_unique(ns, k as int, name@);
                }
                let ghost old_entries = self.entries@;
                let _e = self.entries.remove(k);
                proof {
                    assert(self.names() =~= ns.remove(k as int));
                    let ns2 = self.names();
                    assert(!ns2.contains(name@)) by {
                        if ns2.contains(name@) {
                            let k1 = choose|k1: int| 0 <= k1 < ns2.len() && ns2[k1] == name@;
                            if k1 < k {
                                assert(ns[k1] == name@);
                            } else {
                                assert(ns[k1 + 1] == name@);
                            }
                        }
                    }
                    assert forall|n: Seq<char>| n != name@ implies self.gem_of(n) == old_self.gem_of(n) by {
                        if ns.contains(n) {
                            let k0 = choose|k0: int| 0 <= k0 < ns.len() && ns[k0] == n;
                            old_self.lemma_wf_first(n, k0);
                            old_self.lemma_gem_at(n, k0);
                            assert(k0 != k);
                            let k2 = if k0 < k { k0 } else { k0 - 1 };
                            assert(ns2[k2] == n);
                            assert(self.entries@[k2] == old_entries[k0]);
                            self.lemma_wf_first(n, k2);
                            self.lemma_gem_at(n, k2);
                        } else {
                            assert(!ns2.contains(n)) by {
                                if ns2.contains(n) {
                                    let k1 = choose|k1: int| 0 <= k1 < ns2.len() && ns2[k1] == n;
                                    if k1 < k {
                                        assert(ns[k1] == n);
                                    } else {
                                        assert(ns[k1 + 1] == n);
                                    }
                                }
                            }
                        }
                    }
                }
            },
            None => {
                proof {
                    lemma_without_absent(ns, name@);
                }
            },
        }
    }

    pub fn is_empty(&self) -> (r: bool)
        ensures
            r == (self.names().len() == 0),
    {
        self.entries.len() == 0
    }

    pub fn len(&self) -> (r: usize)
        ensures
            r == self.names().len(),
    {
        self.entries.len()
    }
}

proof fn lemma_without_absent(ns: Seq<Seq<char>>, name: Seq<char>)
    requires
        !ns.contains(name),
    ensures
        without_name(ns, name) == ns,
    decreases ns.len(),
{
    if ns.len() > 0 {
        assert(!ns.drop_last().contains(name)) by {
            if ns.drop_last().contains(name) {
                let j = choose|j: int| 0 <= j < ns.drop_last().len() && ns.drop_last()[j] == name;
                assert(ns[j] == name);
            }
        }
        lemma_without_absent(ns.drop_last(), name);
        assert(ns[ns.len() - 1] != name);
        assert(ns.drop_last().push(ns.last()) =~= ns);
    }
}

proof fn lemma_remove_unique(ns: Seq<Seq<char>>, k: int, name: Seq<char>)
    requires
        ns.no_duplicates(),
        0 <= k < ns.len(),
        ns[k] == name,
    ensures
        ns.remove(k) == without_name(ns, name),
    decreases ns.len(),
{
    if k == ns.len() - 1 {
        assert(!ns.drop_last().contains(name)) by {
            if ns.drop_last().contains(name) {
                let j = choose|j: int| 0 <= j < ns.drop_last().len() && ns.drop_last()[j] == name;
                assert(ns[j] == ns[k]);
            }
        }
        lemma_without_absent(ns.drop_last(), name);
        assert(ns.remove(k) =~= ns.drop_last());
    } else {
        assert(ns.drop_last().no_duplicates());
        lemma_remove_unique(ns.drop_last(), k, name);
        assert(ns.last() != name);
        assert(ns.remove(k) =~= ns.drop_last().remove(k).push(ns.last()));
    }
}

// ───────────────────────── validation ─────────────────────────

/// A version `major.minor.patch`.
#[derive(Debug, Clone, Copy, PartialEq, Eq, Structural)]
pub struct Version {
    pub major: u64,
    pub minor: u64,
    pub patch: u64,
}

/// `major.minor.patch`.
pub open spec fn version_text(v: Version) -> Seq<char> {
    text::decimal(v.major as nat) + seq!['.'] + text::decimal(v.minor as nat) + seq!['.']
        + text::decimal(v.patch as nat)
}

/// Whether `v` meets the caret requirement `^req`: the same leftmost non-zero part,
/// and not older.
pub open spec fn caret_matches(req: Version, v: Version) -> bool {
    if req.major > 0 {
        v.major == req.major && (v.minor > req.minor || (v.minor == req.minor && v.patch
            >= req.patch))
    } else if req.minor > 0 {
        v.major == 0 && v.minor == req.minor && v.patch >= req.patch
    } else {
        v.major == 0 && v.minor == 0 && v.patch == req.patch
    }
}

impl Version {
    pub fn new(major: u64, minor: u64, patch: u64) -> (r: Version)
        ensures
            r == (Version { major, minor, patch }),
    {
        Version { major, minor, patch }
    }

    /// `major.minor.patch`.
    pub fn to_string(&self) -> (r: String)
        ensures
            r@ == version_text(*self),
    {
        let a = text::u64_to_string(self.major);
        let b = text::u64_to_string(self.minor);
        let c = text::u64_to_string(self.patch);
        let ab = text::cat3(a.as_str(), ".", b.as_str());
        proof {
            reveal_strlit(".");
        }
        text::cat3(ab.as_str(), ".", c.as_str())
    }

    /// Whether `v` meets the caret requirement made of this version.
    pub fn caret_matches(&self, v: &Version) -> (r: bool)
        ensures
            r == caret_matches(*self, *v),
    {
        if self.major > 0 {
            v.major == self.major && (v.minor > self.minor || (v.minor == self.minor && v.patch
                >= self.patch))
        } else if self.minor > 0 {
            v.major == 0 && v.minor == self.minor && v.patch >= self.patch
        } else {
            v.major == 0 && v.minor == 0 && v.patch == self.patch
        }
    }
}

/// A character allowed in a gem's name.
pub open spec fn gem_name_char(c: char) -> bool {
    text::is_ascii_alnum(c) || c == '-' || c == '_'
}

pub open spec fn known_gem_kinds() -> Seq<Seq<char>> {
    seq![
        "codegen"@,
        "platform"@,
        "integration"@,
        "database"@,
        "auth"@,
        "devtool"@,
        "theme"@,
        "deploy"@,
        "analytics"@,
        "security"@,
        "storage"@,
        "notification"@,
        "lsp"@,
    ]
}

pub open spec fn known_targets() -> Seq<Seq<char>> {
    seq!["hybrid"@, "ssr"@, "csr"@, "static"@, "api"@, "desktop"@, "mobile"@]
}

pub open spec fn quoted(before: Seq<char>, x: Seq<char>, after: Seq<char>) -> Seq<char> {
    before + seq!['\''] + x + seq!['\''] + after
}

/// The findings on a gem's description, in order: its name, its version against the
/// framework's, its kind, its homepage.
pub open spec fn gem_meta_findings(
    name: Seq<char>,
    version: Version,
    framework: Version,
    kind: Seq<char>,
    homepage: Option<Seq<char>>,
) -> Seq<DiagnosticView> {
    (if name.len() == 0 {
        seq![error_of("G001"@, "Gem name must not be empty"@)]
    } else if !(forall|i: int| 0 <= i < name.len() ==> gem_name_char(#[trigger] name[i])) {
        seq![error_of("G002"@, quoted("Gem name "@, name, " contains invalid characters"@))]
    } else {
        seq![]
    }) + (if !caret_matches(framework, version) {
        seq![
            warning_of(
                "G003"@,
                "Gem version "@ + version_text(version) + " may not be compatible with framework "@
                    + version_text(framework),
            ),
        ]
    } else {
        seq![]
    }) + (if !known_gem_kinds().contains(kind) {
        seq![warning_of("G004"@, quoted("Unknown gem kind "@, kind, " — using custom"@))]
    } else {
        seq![]
    }) + (match homepage {
        Some(url) => if !text::starts_with(url, "http://"@) && !text::starts_with(url, "https://"@) {
            seq![warning_of("G005"@, quoted("Gem homepage "@, url, " is not a valid URL"@))]
        } else {
            seq![]
        },
        None => seq![],
    })
}

fn quote_msg(before: &str, x: &str, after: &str) -> (r: String)
    ensures
        r@ == quoted(before@, x@, after@),
{
    let a = text::cat3(before, "'", x);
    proof {
        reveal_strlit("'");
    }
    let r = text::cat3(a.as_str(), "'", after);
    proof {
        assert(r@ =~= quoted(before@, x@, after@));
    }
    r
}

fn seq_contains_str(list: &[&str], x: &str) -> (r: bool)
    ensures
        r == list@.map_values(|s: &str| s@).contains(x@),
{
    let ghost views = list@.map_values(|s: &str| s@);
    let mut i: usize = 0;
    while i < list.len()
        invariant
            i <= list@.len(),
            views == list@.map_values(|s: &str| s@),
            forall|j: int| 0 <= j < i ==> views[j] != x@,
        decreases list@.len() - i,
    {
        if text::str_eq(list[i], x) {
            proof {
                assert(views[i as int] == x@);
            }
            return true;
        }
        i += 1;
    }
    false
}

fn gem_name_ok(name: &str) -> (r: bool)
    ensures
        r == forall|i: int| 0 <= i < name@.len() ==> gem_name_char(#[trigger] name@[i]),
{
    let cs = text::chars_of(name);
    let mut i: usize = 0;
    while i < cs.len()
        invariant
            i <= cs@.len(),
            cs@ == name@,
            forall|j: int| 0 <= j < i ==> gem_name_char(#[trigger] name@[j]),
        decreases cs@.len() - i,
    {
        let c = cs[i];
        let ok = ('0' <= c && c <= '9') || ('a' <= c && c <= 'z') || ('A' <= c && c <= 'Z') || c
            == '-' || c == '_';
        if !ok {
            proof {
                assert(!gem_name_char(name@[i as int]));
            }
            return false;
        }
        i += 1;
    }
    true
}

/// Checks a gem's description against the framework's version.
pub fn validate_gem_meta(
    name: &str,
    version: &Version,
    framework: &Version,
    kind: &str,
    homepage: Option<&str>,
) -> (r: Outcome)
    ensures
        r@ == gem_meta_findings(
            name@,
            *version,
            *framework,
            kind@,
            match homepage {
                Some(u) => Some(u@),
                None => None,
            },
        ),
{
    let mut result = Outcome::new();
    let ghost s0 = result@;
    let name_chars = text::chars_of(name);
    if name_chars.len() == 0 {
        result.error("G001", text::owned("Gem name must not be empty"));
    } else if !gem_name_ok(name) {
        let m = quote_msg("Gem name ", name, " contains invalid characters");
        result.error("G002", m);
    }
    let ghost s1 = result@;
    proof {
        reveal_strlit("G001");
        assert(s1 =~= (if name@.len() == 0 {
            seq![error_of("G001"@, "Gem name must not be empty"@)]
        } else if !(forall|i: int| 0 <= i < name@.len() ==> gem_name_char(#[trigger] name@[i])) {
            seq![error_of("G002"@, quoted("Gem name "@, name@, " contains invalid characters"@))]
        } else {
            seq![]
        }));
    }
    if !framework.caret_matches(version) {
        let vt = version.to_string();
        let ft = framework.to_string();
        let a = text::cat3("Gem version ", vt.as_str(), " may not be compatible with framework ");
        let m = text::cat(a.as_str(), ft.as_str());
        result.warning("G003", m);
    }
    let ghost s2 = result@;
    proof {
        assert(s2 =~= s1 + (if !caret_matches(*framework, *version) {
            seq![
                warning_of(
                    "G003"@,
                    "Gem version "@ + version_text(*version) + " may not be compatible with framework "@
                        + version_text(*framework),
                ),
            ]
        } else {
            seq![]
        }));
    }
    let kinds: [&str; 13] = [
        "codegen",
        "platform",
        "integration",
        "database",
        "auth",
        "devtool",
        "theme",
        "deploy",
        "analytics",
        "security",
        "storage",
        "notification",
        "lsp",
    ];
    proof {
        reveal_strlit("codegen");
        reveal_strlit("platform");
        reveal_strlit("integration");
        reveal_strlit("database");
        reveal_strlit("auth");
        reveal_strlit("devtool");
        reveal_strlit("theme");
        reveal_strlit("deploy");
        reveal_strlit("analytics");
        reveal_strlit("security");
        reveal_strlit("storage");
        reveal_strlit("notification");
        reveal_strlit("lsp");
        assert(kinds@.map_values(|s: &str| s@) =~= known_gem_kinds());
    }
    if !seq_contains_str(kinds.as_slice(), kind) {
        let m = quote_msg("Unknown gem kind ", kind, " — using custom");
        result.warning("G004", m);
    }
    let ghost s3 = result@;
    proof {
        assert(s3 =~= s2 + (if !known_gem_kinds().contains(kind@) {
            seq![warning_of("G004"@, quoted("Unknown gem kind "@, kind@, " — using custom"@))]
        } else {
            seq![]
        }));
    }
    match homepage {
        Some(url) => {
            let u = text::chars_of(url);
            let h1 = text::chars_of("http://");
            let h2 = text::chars_of("https://");
            proof {
                reveal_strlit("http://");
                reveal_strlit("https://");
            }
            if !text::starts_with_exec(u.as_slice(), h1.as_slice()) && !text::starts_with_exec(
                u.as_slice(),
                h2.as_slice(),
            ) {
                let m = quote_msg("Gem homepage ", url, " is not a valid URL");
                result.warning("G005", m);
            }
        },
        None => {},
    }
    proof {
        assert(result@ =~= gem_meta_findings(
            name@,
            *version,
            *framework,
            kind@,
            match homepage {
                Some(u) => Some(u@),
                None => None,
            },
        ));
    }
    result
}

/// A warning for each target of `s` that is not a known one, in order.
pub open spec fn unknown_target_warnings(s: Seq<Seq<char>>) -> Seq<DiagnosticView>
    decreases s.len(),
{
    if s.len() == 0 {
        Seq::empty()
    } else if known_targets().contains(s.last()) {
        unknown_target_warnings(s.drop_last())
    } else {
        unknown_target_warnings(s.drop_last()).push(
            warning_of("G010"@, quoted("Unknown target "@, s.last(), " in supports list"@)),
        )
    }
}

/// An error for each default of `d` that is not among `supports`, in order.
pub open spec fn unsupported_default_errors(d: Seq<Seq<char>>, supports: Seq<Seq<char>>) -> Seq<
    DiagnosticView,
>
    decreases d.len(),
{
    if d.len() == 0 {
        Seq::empty()
    } else if supports.contains(d.last()) {
        unsupported_default_errors(d.drop_last(), supports)
    } else {
        unsupported_default_errors(d.drop_last(), supports).push(
            error_of(
                "G011"@,
                quoted("Gem declares default_for "@, d.last(), " but does not list it in supports"@),
            ),
        )
    }
}

/// The findings on the targets a gem supports and those it is a default for:
/// a warning for each unknown target supported, then an error for each default
/// that is not supported.
pub open spec fn gem_target_findings(supports: Seq<Seq<char>>, defaults: Seq<Seq<char>>) -> Seq<
    DiagnosticView,
> {
    unknown_target_warnings(supports) + unsupported_default_errors(defaults, supports)
}

/// Checks the targets a gem supports and those it is a default for.
pub fn validate_gem_targets(supports: &[&str], defaults: &[&str]) -> (r: Outcome)
    ensures
        r@ == gem_target_findings(
            supports@.map_values(|s: &str| s@),
            defaults@.map_values(|s: &str| s@),
        ),
{
    let ghost sv = supports@.map_values(|s: &str| s@);
    let ghost dv = defaults@.map_values(|s: &str| s@);
    let mut result = Outcome::new();
    let targets: [&str; 7] = ["hybrid", "ssr", "csr", "static", "api", "desktop", "mobile"];
    proof {
        reveal_strlit("hybrid");
        reveal_strlit("ssr");
        reveal_strlit("csr");
        reveal_strlit("static");
        reveal_strlit("api");
        reveal_strlit("desktop");
        reveal_strlit("mobile");
        assert(targets@.map_values(|s: &str| s@) =~= known_targets());
        assert(sv.take(0) =~= Seq::<Seq<char>>::empty());
    }
    let mut i: usize = 0;
    while i < supports.len()
        invariant
            i <= supports@.len(),
            sv == supports@.map_values(|s: &str| s@),
            targets@.map_values(|s: &str| s@) == known_targets(),
            result@ == unknown_target_warnings(sv.take(i as int)),
        decreases supports@.len() - i,
    {
        let t = supports[i];
        proof {
            assert(sv.take(i + 1).drop_last() =~= sv.take(i as int));
            assert(sv.take(i + 1).last() == t@);
        }
        if !seq_contains_str(targets.as_slice(), t) {
            let m = quote_msg("Unknown target ", t, " in supports list");
            result.warning("G010", m);
        }
        i += 1;
    }
    let ghost part1 = result@;
    proof {
        assert(sv.take(supports@.len() as int) =~= sv);
        assert(dv.take(0) =~= Seq::<Seq<char>>::empty());
        assert(part1 + unsupported_default_errors(dv.take(0), sv) =~= part1);
    }
    let mut j: usize = 0;
    while j < defaults.len()
        invariant
            j <= defaults@.len(),
            sv == supports@.map_values(|s: &str| s@),
            dv == defaults@.map_values(|s: &str| s@),
            result@ == part1 + unsupported_default_errors(dv.take(j as int), sv),
        decreases defaults@.len() - j,
    {
        let t = defaults[j];
        proof {
            assert(dv.take(j + 1).drop_last() =~= dv.take(j as int));
            assert(dv.take(j + 1).last() == t@);
        }
        if !seq_contains_str(supports, t) {
            let m = quote_msg("Gem declares default_for ", t, " but does not list it in supports");
            result.error("G011", m);
            proof {
                assert(part1 + unsupported_default_errors(dv.take(j + 1), sv) =~= (part1
                    + unsupported_default_errors(dv.take(j as int), sv)).push(
                    error_of(
                        "G011"@,
                        quoted("Gem declares default_for "@, t@, " but does not list it in supports"@),
                    ),
                ));
            }
        }
        j += 1;
    }
    proof {
        assert(dv.take(defaults@.len() as int) =~= dv);
    }
    result
}

/// Refuses a gem whose name is already registered.
pub fn validate_gem_registration(existing_names: &[String], new_name: &str) -> (r: Outcome)
    ensures
        r@ == if text::str_views(existing_names@).contains(new_name@) {
            seq![error_of("G020"@, quoted("Gem "@, new_name@, " is already registered"@))]
        } else {
            seq![]
        },
{
    let mut result = Outcome::new();
    let mut i: usize = 0;
    let mut found = false;
    while i < existing_names.len()
        invariant
            i <= existing_names@.len(),
            found <==> exists|j: int|
                0 <= j < i && #[trigger] text::str_views(existing_names@)[j] == new_name@,
        decreases existing_names@.len() - i,
    {
        proof {
            assert(text::str_views(existing_names@)[i as int] == existing_names@[i as int]@);
        }
        if !found && text::str_eq(existing_names[i].as_str(), new_name) {
            found = true;
        }
        i += 1;
    }
    if found {
        let m = quote_msg("Gem ", new_name, " is already registered");
        result.error("G020", m);
    }
    proof {
        if found {
            assert(result@ =~= seq![error_of("G020"@, quoted("Gem "@, new_name@, " is already registered"@))]);
        } else {
            assert(result@ =~= Seq::<DiagnosticView>::empty());
        }
    }
    result
}

/// Checks a gem's name, version and kind.
#[derive(Debug)]
pub struct GemMetaValidator {
    pub gem_name: String,
    pub gem_version: Version,
    pub gem_kind: String,
}

impl GemMetaValidator {
    pub fn name(&self) -> (r: &str)
        ensures
            r@ == "gem-meta"@,
    {
        "gem-meta"
    }

    /// The findings of `validate_gem_meta` on this gem, without a homepage.
    pub fn validate(&self, framework: &Version) -> (r: Outcome)
        ensures
            r@ == gem_meta_findings(
                self.gem_name@,
                self.gem_version,
                *framework,
                self.gem_kind@,
                None,
            ),
    {
        validate_gem_meta(
            self.gem_name.as_str(),
            &self.gem_version,
            framework,
            self.gem_kind.as_str(),
            None,
        )
    }
}

} // verus!
