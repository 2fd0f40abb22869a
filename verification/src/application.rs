//! The application's boot sequence: its phases, the events it announces, and
//! the order in which service providers are registered and booted.
//!
//! Providers name the providers they depend on; the boot order walks those
//! dependencies depth first, so that a provider comes after what it depends
//! on, and then orders the result by priority, keeping that order among
//! providers of equal priority.
use vstd::prelude::*;
use crate::env::{Environment, EnvironmentView};
use crate::text;

verus! {

/// The phase of the boot sequence an application is in.
#[derive(Debug, Clone, Copy, PartialEq, Eq, Structural)]
pub enum BootPhase {
    Created,
    ConfigLoaded,
    Registering,
    Registered,
    Booting,
    Booted,
    TiersReady,
    Running,
    ShuttingDown,
    Stopped,
}

/// The name of a phase, as its events announce it.
pub open spec fn phase_name(p: BootPhase) -> Seq<char> {
    match p {
        BootPhase::Created => "created"@,
        BootPhase::ConfigLoaded => "config-loaded"@,
        BootPhase::Registering => "registering"@,
        BootPhase::Registered => "registered"@,
        BootPhase::Booting => "booting"@,
        BootPhase::Booted => "booted"@,
        BootPhase::TiersReady => "tiers-ready"@,
        BootPhase::Running => "running"@,
        BootPhase::ShuttingDown => "shutting-down"@,
        BootPhase::Stopped => "stopped"@,
    }
}

impl BootPhase {
    pub fn as_str(&self) -> (r: &'static str)
        ensures
            r@ == phase_name(*self),
    {
        match self {
            BootPhase::Created => "created",
            BootPhase::ConfigLoaded => "config-loaded",
            BootPhase::Registering => "registering",
            BootPhase::Registered => "registered",
            BootPhase::Booting => "booting",
            BootPhase::Booted => "booted",
            BootPhase::TiersReady => "tiers-ready",
            BootPhase::Running => "running",
            BootPhase::ShuttingDown => "shutting-down",
            BootPhase::Stopped => "stopped",
        }
    }
}

/// What a lifecycle event carries.
#[derive(Debug)]
pub enum BootPayload {
    Environment(Environment),
    ConfigSources(Vec<String>),
    ProviderIds(Vec<String>),
    ServiceCount(usize),
    Duration(std::time::Duration),
    ActiveTiers(Vec<&'static str>),
    Address(String),
    ShutdownReason(&'static str),
    Error(String),
}

#[verifier::external_type_specification]
#[verifier::external_body]
pub struct ExInstant(std::time::Instant);

/// `Instant::now`: a reading of the monotonic clock, of which nothing is stated.
#[verifier::external_body]
pub(crate) fn instant_now() -> std::time::Instant {
    std::time::Instant::now()
}

/// An event of the boot lifecycle, as listeners receive it.
#[derive(Debug)]
pub struct BootEvent {
    pub phase: BootPhase,
    pub event_type: &'static str,
    pub timestamp: std::time::Instant,
    pub payload: Option<BootPayload>,
}

impl BootEvent {
    /// An event of the given phase and type, stamped with the current time.
    pub fn new(phase: BootPhase, event_type: &'static str) -> (r: BootEvent)
        ensures
            r.phase == phase,
            r.event_type@ == event_type@,
            r.payload is None,
    {
        BootEvent { phase, event_type, timestamp: instant_now(), payload: None }
    }

    /// The same event with the given payload.
    pub fn with_payload(self, payload: BootPayload) -> (r: BootEvent)
        ensures
            r.phase == self.phase,
            r.event_type@ == self.event_type@,
            r.timestamp == self.timestamp,
            r.payload == Some(payload),
    {
        let mut e = self;
        e.payload = Some(payload);
        e
    }
}

/// The message an error of a provider is reported with: `[id] stage: error`.
pub open spec fn provider_error_text(id: Seq<char>, stage: Seq<char>, err: Seq<char>) -> Seq<char> {
    seq!['['] + id + seq![']', ' '] + stage + seq![':', ' '] + err
}

pub fn provider_error(id: &str, stage: &str, err: &str) -> (r: String)
    ensures
        r@ == provider_error_text(id@, stage@, err@),
{
    let mut r = text::owned("[");
    r.append(id);
    r.append("] ");
    r.append(stage);
    r.append(": ");
    r.append(err);
    proof {
        reveal_strlit("[");
        reveal_strlit("] ");
        reveal_strlit(": ");
        assert(r@ =~= provider_error_text(id@, stage@, err@));
    }
    r
}

/// Whether a provider limited to `allowed` environments runs in `env`
/// (one with no limit runs everywhere).
pub open spec fn runs_in(allowed: Option<Seq<EnvironmentView>>, env: EnvironmentView) -> bool {
    match allowed {
        None => true,
        Some(a) => a.contains(env),
    }
}

/// The views of a sequence of environments.
pub open spec fn env_views(s: Seq<Environment>) -> Seq<EnvironmentView> {
    s.map_values(|e: Environment| e@)
}

pub fn provider_matches_env(allowed: Option<&[Environment]>, env: &Environment) -> (r: bool)
    ensures
        r == runs_in(
            match allowed {
                None => None,
                Some(a) => Some(env_views(a@)),
            },
            env@,
        ),
{
    match allowed {
        None => true,
        Some(a) => {
            let ghost views = env_views(a@);
            let mut i: usize = 0;
            while i < a.len()
                invariant
                    i <= a@.len(),
                    views == env_views(a@),
                    allowed == Some(a),
                    forall|j: int| 0 <= j < i ==> views[j] != env@,
                decreases a.len() - i,
            {
                if a[i].same_as(env) {
                    assert(views[i as int] == env@);
                    assert(views.contains(env@));
                    return true;
                }
                i += 1;
            }
            assert(!views.contains(env@)) by {
                if views.contains(env@) {
                    let j = choose|j: int| 0 <= j < views.len() && views[j] == env@;
                    assert(views[j] != env@);
                }
            }
            false
        },
    }
}

// ───────────────────────── boot order ─────────────────────────

/// What the boot order reads of a provider: its id, the ids it depends on,
/// its priority (lower boots earlier), and whether it runs in the current
/// environment.
#[derive(Debug)]
pub struct ProviderInfo {
    pub id: String,
    pub depends_on: Vec<String>,
    pub priority: u8,
    pub in_env: bool,
}

/// The provider an id names: the last one with that id.
pub open spec fn id_index(infos: Seq<ProviderInfo>, id: Seq<char>) -> Option<int>
    decreases infos.len(),
{
    if infos.len() == 0 {
        None
    } else if infos.last().id@ == id {
        Some(infos.len() - 1)
    } else {
        id_index(infos.drop_last(), id)
    }
}

/// The number of providers not yet visited.
pub open spec fn unvisited(v: Seq<bool>) -> nat
    decreases v.len(),
{
    if v.len() == 0 {
        0
    } else {
        unvisited(v.drop_last()) + if v.last() {
            0nat
        } else {
            1nat
        }
    }
}

pub proof fn lemma_unvisited_mark(v: Seq<bool>, d: int)
    requires
        0 <= d < v.len(),
        !v[d],
    ensures
        unvisited(v.update(d, true)) + 1 == unvisited(v),
    decreases v.len(),
{
    if d == v.len() - 1 {
        assert(v.update(d, true).drop_last() =~= v.drop_last());
    } else {
        lemma_unvisited_mark(v.drop_last(), d);
        assert(v.update(d, true).drop_last() =~= v.drop_last().update(d, true));
    }
}

pub proof fn lemma_unvisited_mono(a: Seq<bool>, b: Seq<bool>)
    requires
        a.len() == b.len(),
        forall|i: int| 0 <= i < a.len() && a[i] ==> b[i],
    ensures
        unvisited(b) <= unvisited(a),
    decreases a.len(),
{
    if a.len() > 0 {
        lemma_unvisited_mono(a.drop_last(), b.drop_last());
    }
}

/// Depth first from provider `idx`, whose dependencies from the `k`-th on are
/// still to be walked: each dependency not yet visited is marked and walked
/// first, and `idx` is appended to the order once they are done.
pub open spec fn dfs_from(
    infos: Seq<ProviderInfo>,
    vis: Seq<bool>,
    out: Seq<usize>,
    idx: int,
    k: int,
) -> (Seq<bool>, Seq<usize>)
    decreases unvisited(vis), infos[idx].depends_on@.len() - k,
{
    if k < 0 || k >= infos[idx].depends_on@.len() {
        (vis, out.push(idx as usize))
    } else {
        match id_index(infos, infos[idx].depends_on@[k]@) {
            Some(d) => if 0 <= d < vis.len() && !vis[d] {
                proof {
                    lemma_unvisited_mark(vis, d);
                }
                let r = dfs_from(infos, vis.update(d, true), out, d, 0);
                if r.0.len() == vis.len() && unvisited(r.0) <= unvisited(vis) {
                    dfs_from(infos, r.0, r.1, idx, k + 1)
                } else {
                    r
                }
            } else {
                dfs_from(infos, vis, out, idx, k + 1)
            },
            None => dfs_from(infos, vis, out, idx, k + 1),
        }
    }
}

/// The walk over all providers from the `i`-th on: each one that runs in the
/// environment and is not yet visited is marked and walked.
pub open spec fn dfs_all(infos: Seq<ProviderInfo>, vis: Seq<bool>, out: Seq<usize>, i: int) -> (
    Seq<bool>,
    Seq<usize>,
)
    decreases infos.len() - i,
{
    if i < 0 || i >= infos.len() || i >= vis.len() {
        (vis, out)
    } else if !vis[i] && infos[i].in_env {
        let r = dfs_from(infos, vis.update(i, true), out, i, 0);
        dfs_all(infos, r.0, r.1, i + 1)
    } else {
        dfs_all(infos, vis, out, i + 1)
    }
}

/// The providers in dependency order, before priorities are applied.
pub open spec fn dependency_order(infos: Seq<ProviderInfo>) -> Seq<usize> {
    dfs_all(infos, Seq::new(infos.len(), |i: int| false), seq![], 0).1
}

/// The priority of the provider at `x`.
pub open spec fn prio(infos: Seq<ProviderInfo>, x: usize) -> u8 {
    if x < infos.len() {
        infos[x as int].priority
    } else {
        0
    }
}

/// Where a stable insertion puts `x` in `s`: after the last element whose
/// priority is not above that of `x`.
pub open spec fn insert_pos(infos: Seq<ProviderInfo>, s: Seq<usize>, x: usize) -> int
    decreases s.len(),
{
    if s.len() == 0 {
        0
    } else if prio(infos, s.last()) <= prio(infos, x) {
        s.len() as int
    } else {
        insert_pos(infos, s.drop_last(), x)
    }
}

/// `s` sorted by priority, stably.
pub open spec fn by_priority(infos: Seq<ProviderInfo>, s: Seq<usize>) -> Seq<usize>
    decreases s.len(),
{
    if s.len() == 0 {
        s
    } else {
        let t = by_priority(infos, s.drop_last());
        t.insert(insert_pos(infos, t, s.last()), s.last())
    }
}

/// The order in which providers are registered and booted.
pub open spec fn provider_order(infos: Seq<ProviderInfo>) -> Seq<usize> {
    by_priority(infos, dependency_order(infos))
}

/// No element occurs twice.
pub open spec fn no_dup(s: Seq<usize>) -> bool {
    forall|i: int, j: int| 0 <= i < j < s.len() ==> s[i] != s[j]
}

/// Priorities never fall along `s`.
pub open spec fn sorted_by_priority(infos: Seq<ProviderInfo>, s: Seq<usize>) -> bool {
    forall|i: int, j: int| 0 <= i < j < s.len() ==> prio(infos, s[i]) <= prio(infos, s[j])
}

proof fn lemma_id_index_range(infos: Seq<ProviderInfo>, id: Seq<char>)
    ensures
        id_index(infos, id) matches Some(d) ==> 0 <= d < infos.len(),
    decreases infos.len(),
{
    if infos.len() > 0 {
        lemma_id_index_range(infos.drop_last(), id);
    }
}

/// What one walk from `idx` keeps: the order stays free of repeats and holds
/// exactly the visited providers that are done, it only grows, and what it
/// gains was unvisited before, or is `idx`.
proof fn lemma_dfs_from(infos: Seq<ProviderInfo>, vis: Seq<bool>, out: Seq<usize>, idx: int, k: int)
    requires
        infos.len() <= usize::MAX,
        vis.len() == infos.len(),
        0 <= idx < infos.len(),
        vis[idx],
        no_dup(out),
        forall|e: usize| #[trigger] out.contains(e) ==> e < infos.len() && vis[e as int],
        !out.contains(idx as usize),
    ensures
        ({
            let r = dfs_from(infos, vis, out, idx, k);
            &&& r.0.len() == vis.len()
            &&& forall|i: int| 0 <= i < vis.len() && vis[i] ==> r.0[i]
            &&& no_dup(r.1)
            &&& forall|e: usize| #[trigger] r.1.contains(e) ==> e < infos.len() && r.0[e as int]
            &&& r.1.contains(idx as usize)
            &&& forall|e: usize| #[trigger] out.contains(e) ==> r.1.contains(e)
            &&& forall|e: usize| #[trigger] r.1.contains(e) ==> out.contains(e) || e == idx
                || !vis[e as int]
            &&& forall|e: int|
                0 <= e < vis.len() && !vis[e] && r.0[e] ==> #[trigger] r.1.contains(e as usize)
        }),
    decreases unvisited(vis), infos[idx].depends_on@.len() - k,
{
    let r = dfs_from(infos, vis, out, idx, k);
    if k < 0 || k >= infos[idx].depends_on@.len() {
        assert forall|e: usize| #[trigger] r.1.contains(e) implies out.contains(e) || e == idx by {
            let j = choose|j: int| 0 <= j < r.1.len() && r.1[j] == e;
            if j < out.len() {
                assert(out[j] == e);
                assert(out.contains(e));
            }
        }
        assert forall|e: usize| #[trigger] out.contains(e) implies r.1.contains(e) by {
            let j = choose|j: int| 0 <= j < out.len() && out[j] == e;
            assert(r.1[j] == e);
        }
        assert(r.1[out.len() as int] == idx as usize);
        assert forall|e: usize| #[trigger] r.1.contains(e) implies e < infos.len() && r.0[e as int] by {
            let j = choose|j: int| 0 <= j < r.1.len() && r.1[j] == e;
            if j < out.len() {
                assert(out[j] == e);
                assert(out.contains(e));
            }
        }
        assert forall|i: int, j: int| 0 <= i < j < r.1.len() implies r.1[i] != r.1[j] by {
            if j == out.len() {
                assert(out[i] == r.1[i]);
                assert(out.contains(r.1[i]));
            }
        }
    } else {
        let dep = infos[idx].depends_on@[k]@;
        lemma_id_index_range(infos, dep);
        match id_index(infos, dep) {
            Some(d) => {
                if 0 <= d < vis.len() && !vis[d] {
                    lemma_unvisited_mark(vis, d);
                    let v1 = vis.update(d, true);
                    assert(!out.contains(d as usize));
                    assert forall|e: usize| #[trigger] out.contains(e) implies e < infos.len()
                        && v1[e as int] by {}
                    lemma_dfs_from(infos, v1, out, d, 0);
                    let r1 = dfs_from(infos, v1, out, d, 0);
                    lemma_unvisited_mono(v1, r1.0);
                    assert(v1[idx]);
                    assert(r1.0[idx]);
                    assert(!r1.1.contains(idx as usize)) by {
                        if r1.1.contains(idx as usize) {
                            assert(out.contains(idx as usize) || idx == d || !v1[idx]);
                        }
                    }
                    lemma_dfs_from(infos, r1.0, r1.1, idx, k + 1);
                    assert(r == dfs_from(infos, r1.0, r1.1, idx, k + 1));
                    let r2 = dfs_from(infos, r1.0, r1.1, idx, k + 1);
                    assert forall|i: int| 0 <= i < vis.len() && vis[i] implies r.0[i] by {
                        assert(v1[i]);
                        assert(r1.0[i]);
                        assert(r2.0[i]);
                    }
                    assert forall|e: usize| #[trigger] r.1.contains(e) implies out.contains(e)
                        || e == idx || !vis[e as int] by {
                        assert(r2.1.contains(e));
                        if r1.1.contains(e) {
                            assert(out.contains(e) || e == d || !v1[e as int]);
                        } else if e != idx {
                            assert(!r1.0[e as int]);
                            if vis[e as int] {
                                assert(v1[e as int]);
                            }
                        }
                    }
                    assert forall|e: int|
                        0 <= e < vis.len() && !vis[e] && r.0[e] implies #[trigger] r.1.contains(
                        e as usize,
                    ) by {
                        if r1.0[e] {
                            if e != d {
                                assert(r1.1.contains(e as usize));
                            }
                        }
                    }
                } else {
                    lemma_dfs_from(infos, vis, out, idx, k + 1);
                }
            },
            None => {
                lemma_dfs_from(infos, vis, out, idx, k + 1);
            },
        }
    }
}

/// What the walk over all providers keeps: no repeats, and the order holds
/// exactly the visited providers; each provider from the `i`-th on that runs in
/// the environment ends up visited.
proof fn lemma_dfs_all(infos: Seq<ProviderInfo>, vis: Seq<bool>, out: Seq<usize>, i: int)
    requires
        infos.len() <= usize::MAX,
        vis.len() == infos.len(),
        0 <= i,
        no_dup(out),
        forall|e: usize| #[trigger] out.contains(e) ==> e < infos.len() && vis[e as int],
        forall|e: int| 0 <= e < vis.len() && vis[e] ==> #[trigger] out.contains(e as usize),
    ensures
        ({
            let r = dfs_all(infos, vis, out, i);
            &&& r.0.len() == vis.len()
            &&& no_dup(r.1)
            &&& forall|e: usize| #[trigger] r.1.contains(e) ==> e < infos.len() && r.0[e as int]
            &&& forall|e: int| 0 <= e < vis.len() && r.0[e] ==> #[trigger] r.1.contains(e as usize)
            &&& forall|j: int| i <= j < infos.len() && infos[j].in_env ==> #[trigger] r.0[j]
        }),
    decreases infos.len() - i,
{
    if i >= infos.len() {
    } else if !vis[i] && infos[i].in_env {
        let v1 = vis.update(i, true);
        assert(!out.contains(i as usize)) by {
            if out.contains(i as usize) {
                assert(vis[i]);
            }
        }
        assert forall|e: usize| #[trigger] out.contains(e) implies e < infos.len()
            && v1[e as int] by {}
        lemma_dfs_from(infos, v1, out, i, 0);
        let r = dfs_from(infos, v1, out, i, 0);
        assert forall|e: int| 0 <= e < vis.len() && r.0[e] implies #[trigger] r.1.contains(
            e as usize,
        ) by {
            if vis[e] {
                assert(out.contains(e as usize));
            }
        }
        lemma_dfs_all(infos, r.0, r.1, i + 1);
        let rr = dfs_all(infos, r.0, r.1, i + 1);
        assert(rr == dfs_all(infos, vis, out, i));
        lemma_dfs_all_mono(infos, r.0, r.1, i + 1);
    } else {
        lemma_dfs_all(infos, vis, out, i + 1);
        lemma_dfs_all_mono(infos, vis, out, i + 1);
    }
}

/// The walk over all providers never unmarks one.
proof fn lemma_dfs_all_mono(infos: Seq<ProviderInfo>, vis: Seq<bool>, out: Seq<usize>, i: int)
    requires
        infos.len() <= usize::MAX,
        vis.len() == infos.len(),
        0 <= i,
        no_dup(out),
        forall|e: usize| #[trigger] out.contains(e) ==> e < infos.len() && vis[e as int],
    ensures
        forall|j: int| 0 <= j < vis.len() && vis[j] ==> #[trigger] dfs_all(infos, vis, out, i).0[j],
    decreases infos.len() - i,
{
    if i >= infos.len() {
    } else if !vis[i] && infos[i].in_env {
        let v1 = vis.update(i, true);
        assert(!out.contains(i as usize)) by {
            if out.contains(i as usize) {
                assert(vis[i]);
            }
        }
        assert forall|e: usize| #[trigger] out.contains(e) implies e < infos.len()
            && v1[e as int] by {}
        lemma_dfs_from(infos, v1, out, i, 0);
        let r = dfs_from(infos, v1, out, i, 0);
        lemma_dfs_all_mono(infos, r.0, r.1, i + 1);
        assert(dfs_all(infos, vis, out, i) == dfs_all(infos, r.0, r.1, i + 1));
        assert forall|j: int| 0 <= j < vis.len() && vis[j] implies #[trigger] dfs_all(
            infos,
            vis,
            out,
            i,
        ).0[j] by {
            assert(v1[j]);
            assert(r.0[j]);
        }
    } else {
        lemma_dfs_all_mono(infos, vis, out, i + 1);
        assert(dfs_all(infos, vis, out, i) == dfs_all(infos, vis, out, i + 1));
    }
}

proof fn lemma_insert_pos(infos: Seq<ProviderInfo>, t: Seq<usize>, x: usize)
    requires
        sorted_by_priority(infos, t),
    ensures
        0 <= insert_pos(infos, t, x) <= t.len(),
        forall|i: int|
            0 <= i < insert_pos(infos, t, x) ==> prio(infos, #[trigger] t[i]) <= prio(infos, x),
        forall|i: int|
            insert_pos(infos, t, x) <= i < t.len() ==> prio(infos, #[trigger] t[i]) > prio(
                infos,
                x,
            ),
    decreases t.len(),
{
    if t.len() > 0 {
        let n = t.len() - 1;
        if prio(infos, t[n]) <= prio(infos, x) {
            assert forall|i: int| 0 <= i < t.len() implies prio(infos, #[trigger] t[i]) <= prio(
                infos,
                x,
            ) by {
                if i < n {
                    assert(prio(infos, t[i]) <= prio(infos, t[n]));
                }
            }
        } else {
            let u = t.drop_last();
            assert(sorted_by_priority(infos, u)) by {
                assert forall|i: int, j: int| 0 <= i < j < u.len() implies prio(infos, u[i])
                    <= prio(infos, u[j]) by {
                    assert(u[i] == t[i] && u[j] == t[j]);
                }
            }
            lemma_insert_pos(infos, u, x);
            let p = insert_pos(infos, u, x);
            assert forall|i: int| 0 <= i < p implies prio(infos, #[trigger] t[i]) <= prio(
                infos,
                x,
            ) by {
                assert(u[i] == t[i]);
            }
            assert forall|i: int| p <= i < t.len() implies prio(infos, #[trigger] t[i]) > prio(
                infos,
                x,
            ) by {
                if i < n {
                    assert(u[i] == t[i]);
                }
            }
        }
    }
}

proof fn lemma_insert_keeps_sorted(infos: Seq<ProviderInfo>, t: Seq<usize>, x: usize)
    requires
        sorted_by_priority(infos, t),
    ensures
        sorted_by_priority(infos, t.insert(insert_pos(infos, t, x), x)),
{
    lemma_insert_pos(infos, t, x);
    let p = insert_pos(infos, t, x);
    let u = t.insert(p, x);
    assert forall|i: int, j: int| 0 <= i < j < u.len() implies prio(infos, u[i]) <= prio(
        infos,
        u[j],
    ) by {
        if j < p {
            assert(u[i] == t[i] && u[j] == t[j]);
        } else if j == p {
            assert(u[i] == t[i]);
        } else if i < p {
            assert(u[i] == t[i] && u[j] == t[j - 1]);
        } else if i == p {
            assert(u[j] == t[j - 1]);
        } else {
            assert(u[i] == t[i - 1] && u[j] == t[j - 1]);
        }
    }
}

proof fn lemma_insert_contains(t: Seq<usize>, p: int, x: usize)
    requires
        0 <= p <= t.len(),
    ensures
        forall|e: usize| #[trigger] t.insert(p, x).contains(e) <==> t.contains(e) || e == x,
        !t.contains(x) && no_dup(t) ==> no_dup(t.insert(p, x)),
{
    let u = t.insert(p, x);
    assert forall|e: usize| #[trigger] u.contains(e) <==> t.contains(e) || e == x by {
        if u.contains(e) {
            let j = choose|j: int| 0 <= j < u.len() && u[j] == e;
            if j < p {
                assert(t[j] == e);
            } else if j > p {
                assert(t[j - 1] == e);
            }
        }
        if t.contains(e) {
            let j = choose|j: int| 0 <= j < t.len() && t[j] == e;
            if j < p {
                assert(u[j] == e);
            } else {
                assert(u[j + 1] == e);
            }
        }
        if e == x {
            assert(u[p] == x);
        }
    }
    if !t.contains(x) && no_dup(t) {
        assert forall|i: int, j: int| 0 <= i < j < u.len() implies u[i] != u[j] by {
            if i == p {
                assert(t[j - 1] == u[j]);
            } else if j == p {
                assert(t[i] == u[i]);
            } else if i < p && j < p {
                assert(t[i] == u[i] && t[j] == u[j]);
            } else if i < p {
                assert(t[i] == u[i] && t[j - 1] == u[j]);
            } else {
                assert(t[i - 1] == u[i] && t[j - 1] == u[j]);
            }
        }
    }
}

/// Sorting by priority gives a sorted order of the same elements.
pub proof fn lemma_by_priority(infos: Seq<ProviderInfo>, s: Seq<usize>)
    ensures
        sorted_by_priority(infos, by_priority(infos, s)),
        by_priority(infos, s).to_multiset() == s.to_multiset(),
        no_dup(s) ==> no_dup(by_priority(infos, s)),
        forall|e: usize| #[trigger] by_priority(infos, s).contains(e) <==> s.contains(e),
    decreases s.len(),
{
    if s.len() > 0 {
        let x = s.last();
        let d = s.drop_last();
        let t = by_priority(infos, d);
        lemma_by_priority(infos, d);
        lemma_insert_pos(infos, t, x);
        lemma_insert_keeps_sorted(infos, t, x);
        let p = insert_pos(infos, t, x);
        lemma_insert_contains(t, p, x);
        assert(s =~= d.push(x));
        vstd::seq_lib::to_multiset_insert(t, p, x);
        d.to_multiset_ensures();
        assert forall|e: usize| #[trigger] s.contains(e) <==> d.contains(e) || e == x by {
            if s.contains(e) && e != x {
                let j = choose|j: int| 0 <= j < s.len() && s[j] == e;
                assert(d[j] == e);
            }
            if d.contains(e) {
                let j = choose|j: int| 0 <= j < d.len() && d[j] == e;
                assert(s[j] == e);
            }
            if e == x {
                assert(s[s.len() - 1] == x);
            }
        }
        if no_dup(s) {
            assert(!d.contains(x)) by {
                if d.contains(x) {
                    let j = choose|j: int| 0 <= j < d.len() && d[j] == x;
                    assert(s[j] == s[s.len() - 1]);
                }
            }
            assert(no_dup(d)) by {
                assert forall|i: int, j: int| 0 <= i < j < d.len() implies d[i] != d[j] by {
                    assert(s[i] == d[i] && s[j] == d[j]);
                }
            }
            assert(!t.contains(x));
        }
    }
}

/// The provider that the `k`-th dependency of provider `i` names, if any.
pub open spec fn dep_of(infos: Seq<ProviderInfo>, i: int, k: int) -> Option<int> {
    if 0 <= k < infos[i].depends_on@.len() {
        id_index(infos, infos[i].depends_on@[k]@)
    } else {
        None
    }
}

/// The `k`-th dependency of provider `i` names provider `d`.
pub open spec fn dep_is(infos: Seq<ProviderInfo>, i: int, k: int, d: int) -> bool {
    dep_of(infos, i, k) == Some(d)
}

/// The dependencies have no cycle: `rank` falls along every dependency.
pub open spec fn ranked(infos: Seq<ProviderInfo>, rank: spec_fn(int) -> nat) -> bool {
    forall|i: int, k: int, d: int|
        0 <= i < infos.len() && #[trigger] dep_is(infos, i, k, d) ==> rank(d) < rank(i)
}

/// Every provider of the order comes after each of its dependencies.
pub open spec fn deps_before(infos: Seq<ProviderInfo>, s: Seq<usize>) -> bool {
    forall|p: int, k: int, d: int|
        0 <= p < s.len() && #[trigger] dep_is(infos, s[p] as int, k, d) ==> exists|q: int|
            0 <= q < p && s[q] as int == d
}

/// The walk from `idx` keeps dependencies before their dependents, where the
/// dependencies have no cycle and every provider still being walked ranks at
/// least as high as `idx`.
proof fn lemma_dfs_from_ranked(
    infos: Seq<ProviderInfo>,
    rank: spec_fn(int) -> nat,
    vis: Seq<bool>,
    out: Seq<usize>,
    idx: int,
    k: int,
)
    requires
        infos.len() <= usize::MAX,
        vis.len() == infos.len(),
        0 <= idx < infos.len(),
        0 <= k,
        vis[idx],
        no_dup(out),
        forall|e: usize| #[trigger] out.contains(e) ==> e < infos.len() && vis[e as int],
        !out.contains(idx as usize),
        ranked(infos, rank),
        forall|e: int|
            0 <= e < infos.len() && vis[e] && !out.contains(e as usize) ==> rank(e) >= rank(idx),
        deps_before(infos, out),
        forall|j: int, d: int|
            0 <= j < k && #[trigger] dep_is(infos, idx, j, d) ==> out.contains(d as usize),
    ensures
        deps_before(infos, dfs_from(infos, vis, out, idx, k).1),
    decreases unvisited(vis), infos[idx].depends_on@.len() - k,
{
    let r = dfs_from(infos, vis, out, idx, k);
    lemma_dfs_from(infos, vis, out, idx, k);
    if k >= infos[idx].depends_on@.len() {
        let n = out.len() as int;
        assert(r.1 == out.push(idx as usize));
        assert forall|p: int, j: int, d: int|
            0 <= p < r.1.len() && #[trigger] dep_is(infos, r.1[p] as int, j, d) implies exists|
            q: int,
        | 0 <= q < p && r.1[q] as int == d by {
            if p < n {
                assert(r.1[p] == out[p]);
                let q = choose|q: int| 0 <= q < p && out[q] as int == d;
                assert(r.1[q] == out[q]);
            } else {
                assert(r.1[p] == idx as usize);
                assert(out.contains(d as usize));
                let q = choose|q: int| 0 <= q < out.len() && out[q] == d as usize;
                assert(r.1[q] == out[q]);
                lemma_id_index_range(infos, infos[idx].depends_on@[j]@);
            }
        }
    } else {
        let dep = infos[idx].depends_on@[k]@;
        lemma_id_index_range(infos, dep);
        assert(dep_of(infos, idx, k) == id_index(infos, dep));
        match id_index(infos, dep) {
            Some(d) => {
                if 0 <= d < vis.len() && !vis[d] {
                    lemma_unvisited_mark(vis, d);
                    let v1 = vis.update(d, true);
                    assert(!out.contains(d as usize));
                    assert forall|e: usize| #[trigger] out.contains(e) implies e < infos.len()
                        && v1[e as int] by {}
                    assert(dep_is(infos, idx, k, d));
                    assert(rank(d) < rank(idx));
                    assert forall|e: int|
                        0 <= e < infos.len() && v1[e] && !out.contains(e as usize) implies rank(e)
                        >= rank(d) by {
                        if e != d {
                            assert(vis[e]);
                        }
                    }
                    lemma_dfs_from(infos, v1, out, d, 0);
                    lemma_dfs_from_ranked(infos, rank, v1, out, d, 0);
                    let r1 = dfs_from(infos, v1, out, d, 0);
                    lemma_unvisited_mono(v1, r1.0);
                    assert(v1[idx]);
                    assert(r1.0[idx]);
                    assert(!r1.1.contains(idx as usize)) by {
                        if r1.1.contains(idx as usize) {
                            assert(out.contains(idx as usize) || idx == d || !v1[idx]);
                        }
                    }
                    assert forall|e: int|
                        0 <= e < infos.len() && r1.0[e] && !r1.1.contains(e as usize) implies rank(e)
                        >= rank(idx) by {
                        if vis[e] {
                            if out.contains(e as usize) {
                                assert(r1.1.contains(e as usize));
                            }
                        } else if e == d {
                            assert(r1.1.contains(d as usize));
                        } else {
                            assert(!v1[e]);
                            assert(r1.1.contains(e as usize));
                        }
                    }
                    assert forall|j: int, dd: int|
                        0 <= j < k + 1 && #[trigger] dep_is(infos, idx, j, dd) implies r1.1.contains(
                        dd as usize,
                    ) by {
                        if j < k {
                            assert(out.contains(dd as usize));
                        } else {
                            assert(dd == d);
                        }
                    }
                    lemma_dfs_from_ranked(infos, rank, r1.0, r1.1, idx, k + 1);
                    assert(r == dfs_from(infos, r1.0, r1.1, idx, k + 1));
                } else {
                    if !out.contains(d as usize) {
                        assert(dep_is(infos, idx, k, d));
                        assert(rank(d) >= rank(idx));
                        assert(rank(d) < rank(idx));
                    }
                    assert forall|j: int, dd: int|
                        0 <= j < k + 1 && #[trigger] dep_is(infos, idx, j, dd) implies out.contains(
                        dd as usize,
                    ) by {
                        if j == k {
                            assert(dd == d);
                        }
                    }
                    lemma_dfs_from_ranked(infos, rank, vis, out, idx, k + 1);
                }
            },
            None => {
                assert forall|j: int, dd: int|
                    0 <= j < k + 1 && #[trigger] dep_is(infos, idx, j, dd) implies out.contains(
                    dd as usize,
                ) by {
                    if j == k {
                        assert(false);
                    }
                }
                lemma_dfs_from_ranked(infos, rank, vis, out, idx, k + 1);
            },
        }
    }
}

proof fn lemma_dfs_all_ranked(
    infos: Seq<ProviderInfo>,
    rank: spec_fn(int) -> nat,
    vis: Seq<bool>,
    out: Seq<usize>,
    i: int,
)
    requires
        infos.len() <= usize::MAX,
        vis.len() == infos.len(),
        0 <= i,
        no_dup(out),
        forall|e: usize| #[trigger] out.contains(e) ==> e < infos.len() && vis[e as int],
        forall|e: int| 0 <= e < vis.len() && vis[e] ==> #[trigger] out.contains(e as usize),
        ranked(infos, rank),
        deps_before(infos, out),
    ensures
        deps_before(infos, dfs_all(infos, vis, out, i).1),
    decreases infos.len() - i,
{
    if i >= infos.len() {
    } else if !vis[i] && infos[i].in_env {
        let v1 = vis.update(i, true);
        assert(!out.contains(i as usize)) by {
            if out.contains(i as usize) {
                assert(vis[i]);
            }
        }
        assert forall|e: usize| #[trigger] out.contains(e) implies e < infos.len()
            && v1[e as int] by {}
        assert forall|e: int|
            0 <= e < infos.len() && v1[e] && !out.contains(e as usize) implies rank(e) >= rank(i) by {
            if e != i {
                assert(vis[e]);
                assert(out.contains(e as usize));
            }
        }
        lemma_dfs_from(infos, v1, out, i, 0);
        lemma_dfs_from_ranked(infos, rank, v1, out, i, 0);
        let r = dfs_from(infos, v1, out, i, 0);
        assert forall|e: int| 0 <= e < vis.len() && r.0[e] implies #[trigger] r.1.contains(
            e as usize,
        ) by {
            if vis[e] {
                assert(out.contains(e as usize));
            }
        }
        lemma_dfs_all_ranked(infos, rank, r.0, r.1, i + 1);
    } else {
        lemma_dfs_all_ranked(infos, rank, vis, out, i + 1);
    }
}

/// Where the dependencies have no cycle, the dependency walk puts every provider
/// after each of its dependencies.
pub proof fn lemma_dependency_order_topological(infos: Seq<ProviderInfo>, rank: spec_fn(int) -> nat)
    requires
        infos.len() <= usize::MAX,
        ranked(infos, rank),
    ensures
        deps_before(infos, dependency_order(infos)),
{
    let v0 = Seq::new(infos.len(), |i: int| false);
    let empty: Seq<usize> = seq![];
    lemma_dfs_all_ranked(infos, rank, v0, empty, 0);
}

/// Sorting by priority keeps the order of two elements whose priorities do not
/// fall from the first to the second.
pub proof fn lemma_by_priority_stable(infos: Seq<ProviderInfo>, s: Seq<usize>)
    requires
        no_dup(s),
    ensures
        forall|p: int, q: int|
            0 <= p < q < s.len() && prio(infos, #[trigger] s[p]) <= prio(infos, #[trigger] s[q])
                ==> exists|p2: int, q2: int|
                0 <= p2 < q2 < s.len() && by_priority(infos, s)[p2] == s[p] && by_priority(
                    infos,
                    s,
                )[q2] == s[q],
    decreases s.len(),
{
    lemma_by_priority(infos, s);
    if s.len() > 0 {
        let n = s.len() - 1;
        let x = s.last();
        let d = s.drop_last();
        assert(no_dup(d)) by {
            assert forall|i: int, j: int| 0 <= i < j < d.len() implies d[i] != d[j] by {
                assert(s[i] == d[i] && s[j] == d[j]);
            }
        }
        lemma_by_priority(infos, d);
        lemma_by_priority_stable(infos, d);
        let t = by_priority(infos, d);
        lemma_insert_pos(infos, t, x);
        let pos = insert_pos(infos, t, x);
        let u = t.insert(pos, x);
        assert(u == by_priority(infos, s));
        assert(t.len() == d.len()) by {
            assert(t.to_multiset().len() == d.to_multiset().len());
            t.to_multiset_ensures();
            d.to_multiset_ensures();
        }
        assert forall|p: int, q: int|
            0 <= p < q < s.len() && prio(infos, #[trigger] s[p]) <= prio(infos, #[trigger] s[q])
                implies exists|p2: int, q2: int|
            0 <= p2 < q2 < s.len() && u[p2] == s[p] && u[q2] == s[q] by {
            if q < n {
                assert(s[p] == d[p] && s[q] == d[q]);
                assert(prio(infos, d[p]) <= prio(infos, d[q]));
                let (p2, q2) = choose|p2: int, q2: int|
                    0 <= p2 < q2 < d.len() && t[p2] == d[p] && t[q2] == d[q];
                let a2 = if p2 < pos { p2 } else { p2 + 1 };
                let b2 = if q2 < pos { q2 } else { q2 + 1 };
                assert(u[a2] == t[p2]);
                assert(u[b2] == t[q2]);
            } else {
                assert(s[q] == x);
                assert(s[p] == d[p]);
                assert(d.contains(d[p]));
                assert(t.contains(d[p]));
                let j = choose|j: int| 0 <= j < t.len() && t[j] == d[p];
                if j >= pos {
                    assert(prio(infos, t[j]) > prio(infos, x));
                }
                assert(u[j] == t[j]);
                assert(u[pos] == x);
            }
        }
    }
}

/// Priorities do not fall from a dependency to its dependent.
pub open spec fn priorities_follow_deps(infos: Seq<ProviderInfo>) -> bool {
    forall|i: int, k: int, d: int|
        0 <= i < infos.len() && #[trigger] dep_is(infos, i, k, d) ==> prio(infos, d as usize) <= prio(
            infos,
            i as usize,
        )
}

/// Where the dependencies have no cycle and no provider has a lower priority than
/// one it depends on, the boot order puts every provider after each of its
/// dependencies.
pub proof fn lemma_provider_order_topological(infos: Seq<ProviderInfo>, rank: spec_fn(int) -> nat)
    requires
        infos.len() <= usize::MAX,
        ranked(infos, rank),
        priorities_follow_deps(infos),
    ensures
        deps_before(infos, provider_order(infos)),
{
    let s = dependency_order(infos);
    let u = provider_order(infos);
    lemma_dependency_order_topological(infos, rank);
    lemma_provider_order(infos);
    let v0 = Seq::new(infos.len(), |i: int| false);
    let empty: Seq<usize> = seq![];
    lemma_dfs_all(infos, v0, empty, 0);
    lemma_by_priority(infos, s);
    lemma_by_priority_stable(infos, s);
    assert(u.len() == s.len()) by {
        u.to_multiset_ensures();
        s.to_multiset_ensures();
    }
    assert forall|p: int, k: int, d: int|
        0 <= p < u.len() && #[trigger] dep_is(infos, u[p] as int, k, d) implies exists|q: int|
        0 <= q < p && u[q] as int == d by {
        let e = u[p];
        assert(u.contains(e));
        assert(s.contains(e));
        let qe = choose|qe: int| 0 <= qe < s.len() && s[qe] == e;
        assert(dep_is(infos, s[qe] as int, k, d));
        let qd = choose|qd: int| 0 <= qd < qe && s[qd] as int == d;
        assert(e < infos.len());
        assert(prio(infos, d as usize) <= prio(infos, e as usize));
        assert(s[qd] == d as usize);
        assert(prio(infos, s[qd]) <= prio(infos, s[qe]));
        let (p2, q2) = choose|p2: int, q2: int|
            0 <= p2 < q2 < s.len() && u[p2] == s[qd] && u[q2] == s[qe];
        assert(q2 == p) by {
            if q2 != p {
                if q2 < p {
                    assert(u[q2] != u[p]);
                } else {
                    assert(u[p] != u[q2]);
                }
            }
        }
    }
}

/// The boot order: each provider that runs in the environment is booted, none
/// twice, and only providers are named; priorities never fall along the order,
/// which holds exactly the providers of the dependency walk.
pub proof fn lemma_provider_order(infos: Seq<ProviderInfo>)
    requires
        infos.len() <= usize::MAX,
    ensures
        no_dup(provider_order(infos)),
        forall|e: usize| #[trigger] provider_order(infos).contains(e) ==> e < infos.len(),
        forall|j: int|
            0 <= j < infos.len() && infos[j].in_env ==> #[trigger] provider_order(infos).contains(
                j as usize,
            ),
        sorted_by_priority(infos, provider_order(infos)),
        provider_order(infos).to_multiset() == dependency_order(infos).to_multiset(),
{
    let v0 = Seq::new(infos.len(), |i: int| false);
    let empty: Seq<usize> = seq![];
    lemma_dfs_all(infos, v0, empty, 0);
    lemma_by_priority(infos, dependency_order(infos));
    let r = dfs_all(infos, v0, empty, 0);
    assert forall|j: int| 0 <= j < infos.len() && infos[j].in_env implies #[trigger] provider_order(
        infos,
    ).contains(j as usize) by {
        assert(r.0[j]);
        assert(r.1.contains(j as usize));
    }
}

/// The index of the provider an id names.
fn find_provider(infos: &[ProviderInfo], id: &str) -> (r: Option<usize>)
    ensures
        match r {
            Some(d) => id_index(infos@, id@) == Some(d as int) && d < infos@.len(),
            None => id_index(infos@, id@) is None,
        },
{
    let mut j: usize = infos.len();
    assert(infos@.take(j as int) =~= infos@);
    while j > 0
        invariant
            j <= infos@.len(),
            id_index(infos@, id@) == id_index(infos@.take(j as int), id@),
        decreases j,
    {
        assert(infos@.take(j as int).drop_last() =~= infos@.take(j - 1));
        if text::str_eq(infos[j - 1].id.as_str(), id) {
            return Some(j - 1);
        }
        j -= 1;
    }
    None
}

/// Walks the dependencies of `idx`, already marked visited, and then appends it.
fn walk_deps(infos: &[ProviderInfo], idx: usize, visited: &mut Vec<bool>, sorted: &mut Vec<usize>)
    requires
        idx < infos@.len(),
        old(visited)@.len() == infos@.len(),
        old(visited)@[idx as int],
    ensures
        (final(visited)@, final(sorted)@) == dfs_from(
            infos@,
            old(visited)@,
            old(sorted)@,
            idx as int,
            0,
        ),
        final(visited)@.len() == old(visited)@.len(),
        forall|i: int| 0 <= i < old(visited)@.len() && old(visited)@[i] ==> final(visited)@[i],
    decreases unvisited(old(visited)@),
{
    let deps = &infos[idx].depends_on;
    let ghost v0 = visited@;
    let ghost s0 = sorted@;
    let mut k: usize = 0;
    while k < deps.len()
        invariant
            idx < infos@.len(),
            deps@ == infos@[idx as int].depends_on@,
            k <= deps@.len(),
            v0 == old(visited)@,
            v0.len() == infos@.len(),
            visited@.len() == infos@.len(),
            v0[idx as int],
            dfs_from(infos@, v0, s0, idx as int, 0) == dfs_from(
                infos@,
                visited@,
                sorted@,
                idx as int,
                k as int,
            ),
            forall|i: int| 0 <= i < v0.len() && v0[i] ==> visited@[i],
        decreases deps@.len() - k,
    {
        proof {
            lemma_unvisited_mono(v0, visited@);
        }
        match find_provider(infos, deps[k].as_str()) {
            Some(d) => {
                if !visited[d] {
                    let ghost vk = visited@;
                    let ghost sk = sorted@;
                    visited.set(d, true);
                    proof {
                        lemma_unvisited_mark(vk, d as int);
                        assert(unvisited(visited@) < unvisited(v0));
                    }
                    walk_deps(infos, d, visited, sorted);
                    proof {
                        lemma_unvisited_mono(vk.update(d as int, true), visited@);
                        assert(dfs_from(infos@, vk, sk, idx as int, k as int) == dfs_from(
                            infos@,
                            visited@,
                            sorted@,
                            idx as int,
                            k + 1,
                        ));
                    }
                }
            },
            None => {},
        }
        k += 1;
    }
    sorted.push(idx);
}

/// `order` sorted by priority, stably.
fn sort_by_priority(infos: &[ProviderInfo], order: &Vec<usize>) -> (r: Vec<usize>)
    ensures
        r@ == by_priority(infos@, order@),
{
    let mut out: Vec<usize> = Vec::new();
    let mut i: usize = 0;
    while i < order.len()
        invariant
            i <= order@.len(),
            out@ == by_priority(infos@, order@.take(i as int)),
        decreases order.len() - i,
    {
        let x = order[i];
        let px: u8 = if x < infos.len() {
            infos[x].priority
        } else {
            0
        };
        let mut p: usize = out.len();
        assert(out@.take(p as int) =~= out@);
        loop
            invariant
                p <= out@.len(),
                px == prio(infos@, x),
                insert_pos(infos@, out@, x) == insert_pos(infos@, out@.take(p as int), x),
            ensures
                insert_pos(infos@, out@, x) == p,
            decreases p,
        {
            if p == 0 {
                break;
            }
            let y = out[p - 1];
            let py: u8 = if y < infos.len() {
                infos[y].priority
            } else {
                0
            };
            assert(out@.take(p as int).drop_last() =~= out@.take(p - 1));
            if py <= px {
                break;
            }
            p -= 1;
        }
        out.insert(p, x);
        proof {
            assert(order@.take(i + 1).drop_last() =~= order@.take(i as int));
        }
        i += 1;
    }
    assert(order@.take(order@.len() as int) =~= order@);
    out
}

/// The order in which providers are registered and booted: providers that run
/// in the environment, each after the providers it depends on (a dependency is
/// walked even where it does not run in the environment), then sorted by
/// priority, keeping that order among equal priorities.
pub fn sort_provider_indices(infos: &[ProviderInfo]) -> (r: Vec<usize>)
    ensures
        r@ == provider_order(infos@),
{
    let n = infos.len();
    let mut visited: Vec<bool> = Vec::new();
    let mut j: usize = 0;
    while j < n
        invariant
            j <= n,
            n == infos@.len(),
            visited@ == Seq::new(j as nat, |i: int| false),
        decreases n - j,
    {
        visited.push(false);
        j += 1;
    }
    let ghost v0 = visited@;
    assert(v0 =~= Seq::new(infos@.len(), |i: int| false));
    let mut sorted: Vec<usize> = Vec::new();
    let mut i: usize = 0;
    while i < n
        invariant
            i <= n,
            n == infos@.len(),
            visited@.len() == n,
            v0 == Seq::new(infos@.len(), |i: int| false),
            dfs_all(infos@, v0, seq![], 0) == dfs_all(infos@, visited@, sorted@, i as int),
        decreases n - i,
    {
        if !visited[i] && infos[i].in_env {
            visited.set(i, true);
            walk_deps(infos, i, &mut visited, &mut sorted);
        }
        i += 1;
    }
    sort_by_priority(infos, &sorted)
}

// ───────────────────────── built-in providers ─────────────────────────

/// The provider that loads `.env` files.
#[derive(Debug)]
pub struct EnvProvider;

/// The provider that loads the configuration files.
#[derive(Debug)]
pub struct ConfigProvider;

/// The provider that installs the logger.
#[derive(Debug)]
pub struct LogProvider;

/// The provider that registers the queue.
#[derive(Debug)]
pub struct QueueProvider;

/// The provider that registers the event dispatcher.
#[derive(Debug)]
pub struct EventsProvider;

impl EnvProvider {
    pub fn id(&self) -> (r: &'static str)
        ensures
            r@ == "env"@,
    {
        "env"
    }

    pub fn depends_on(&self) -> (r: Vec<&'static str>)
        ensures
            r@.len() == 0,
    {
        Vec::new()
    }
}

impl ConfigProvider {
    pub fn id(&self) -> (r: &'static str)
        ensures
            r@ == "config"@,
    {
        "config"
    }

    pub fn depends_on(&self) -> (r: Vec<&'static str>)
        ensures
            r@.len() == 1,
            r@[0]@ == "env"@,
    {
        vec!["env"]
    }
}

impl LogProvider {
    pub fn id(&self) -> (r: &'static str)
        ensures
            r@ == "log"@,
    {
        "log"
    }

    pub fn depends_on(&self) -> (r: Vec<&'static str>)
        ensures
            r@.len() == 1,
            r@[0]@ == "config"@,
    {
        vec!["config"]
    }
}

impl QueueProvider {
    pub fn id(&self) -> (r: &'static str)
        ensures
            r@ == "queue"@,
    {
        "queue"
    }

    pub fn depends_on(&self) -> (r: Vec<&'static str>)
        ensures
            r@.len() == 1,
            r@[0]@ == "config"@,
    {
        vec!["config"]
    }
}

impl EventsProvider {
    pub fn id(&self) -> (r: &'static str)
        ensures
            r@ == "events"@,
    {
        "events"
    }

    pub fn depends_on(&self) -> (r: Vec<&'static str>)
        ensures
            r@.len() == 1,
            r@[0]@ == "config"@,
    {
        vec!["config"]
    }
}

/// Whether an id is that of a built-in provider that `without_defaults` removes.
pub open spec fn is_default_id(id: Seq<char>) -> bool {
    id == "env"@ || id == "config"@ || id == "log"@ || id == "queue"@ || id == "events"@
}

pub fn is_default_provider(id: &str) -> (r: bool)
    ensures
        r == is_default_id(id@),
{
    text::str_eq(id, "env") || text::str_eq(id, "config") || text::str_eq(id, "log")
        || text::str_eq(id, "queue") || text::str_eq(id, "events")
}

/// The value the configuration provider gives `DEBUG_MODE`: none where the
/// variable is already set or `app.debug` is empty; otherwise `true` where
/// `app.debug`, lowercased, is `true`, `1` or `yes`, and `false` else.
pub open spec fn debug_mode_spec(already_set: bool, app_debug: Seq<char>) -> Option<Seq<char>> {
    if already_set || app_debug.len() == 0 {
        None
    } else {
        let l = text::lowercase(app_debug);
        if l == "true"@ || l == "1"@ || l == "yes"@ {
            Some("true"@)
        } else {
            Some("false"@)
        }
    }
}

pub fn debug_mode_value(already_set: bool, app_debug: &str) -> (r: Option<&'static str>)
    ensures
        match r {
            Some(v) => debug_mode_spec(already_set, app_debug@) == Some(v@),
            None => debug_mode_spec(already_set, app_debug@) is None,
        },
{
    proof {
        reveal_strlit("");
        if app_debug@.len() == 0 {
            assert(app_debug@ =~= ""@);
        }
    }
    if already_set || text::str_eq(app_debug, "") {
        return None;
    }
    let l = text::to_lowercase(app_debug);
    if text::str_eq(l.as_str(), "true") || text::str_eq(l.as_str(), "1") || text::str_eq(
        l.as_str(),
        "yes",
    ) {
        Some("true")
    } else {
        Some("false")
    }
}

} // verus!
