//! Authentication: guards that check credentials, bearer tokens and their claims.
use vstd::prelude::*;
use crate::text;

verus! {

/// The outcome of an authentication attempt.
#[derive(Debug, Clone, PartialEq, Eq)]
pub enum AuthResult {
    Success,
    Failure(String),
}

impl AuthResult {
    pub fn ok() -> (r: AuthResult)
        ensures
            r is Success,
    {
        AuthResult::Success
    }

    pub fn fail(reason: &str) -> (r: AuthResult)
        ensures
            r matches AuthResult::Failure(m) && m@ == reason@,
    {
        AuthResult::Failure(text::owned(reason))
    }

    pub fn is_success(&self) -> (r: bool)
        ensures
            r == (self is Success),
    {
        match self {
            AuthResult::Success => true,
            AuthResult::Failure(_) => false,
        }
    }
}

/// Whether a result is a failure with that reason.
pub open spec fn failed_with(r: AuthResult, reason: Seq<char>) -> bool {
    r matches AuthResult::Failure(m) && m@ == reason
}

// ───────────────────────── key-value lists ─────────────────────────

/// The map that a list of pairs builds when each is inserted in turn: a later pair
/// replaces an earlier one with the same key.
pub open spec fn pairs_map(s: Seq<(Seq<char>, Seq<char>)>) -> Map<Seq<char>, Seq<char>>
    decreases s.len(),
{
    if s.len() == 0 {
        Map::empty()
    } else {
        pairs_map(s.drop_last()).insert(s.last().0, s.last().1)
    }
}

pub open spec fn pair_views(v: Seq<(String, String)>) -> Seq<(Seq<char>, Seq<char>)> {
    v.map_values(|p: (String, String)| (p.0@, p.1@))
}

/// The value of the last pair with `key`, if any.
pub open spec fn latest_value(s: Seq<(Seq<char>, Seq<char>)>, key: Seq<char>) -> Option<Seq<char>>
    decreases s.len(),
{
    if s.len() == 0 {
        None
    } else if s.last().0 == key {
        Some(s.last().1)
    } else {
        latest_value(s.drop_last(), key)
    }
}

pub proof fn lemma_latest_is_map(s: Seq<(Seq<char>, Seq<char>)>, key: Seq<char>)
    ensures
        match latest_value(s, key) {
            Some(v) => pairs_map(s).contains_key(key) && pairs_map(s)[key] == v,
            None => !pairs_map(s).contains_key(key),
        },
    decreases s.len(),
{
    if s.len() > 0 {
        lemma_latest_is_map(s.drop_last(), key);
    }
}

/// The value the latest pair with `key` gives, if any.
fn latest(v: &Vec<(String, String)>, key: &str) -> (r: Option<String>)
    ensures
        match r {
            Some(s) => pairs_map(pair_views(v@)).contains_key(key@) && pairs_map(pair_views(v@))[key@]
                == s@,
            None => !pairs_map(pair_views(v@)).contains_key(key@),
        },
{
    let ghost pv = pair_views(v@);
    let mut i: usize = v.len();
    proof {
        assert(pv.take(v@.len() as int) =~= pv);
        lemma_latest_is_map(pv, key@);
    }
    while i > 0
        invariant
            i <= v@.len(),
            pv == pair_views(v@),
            latest_value(pv, key@) == latest_value(pv.take(i as int), key@),
        decreases i,
    {
        proof {
            assert(pv.take(i as int).drop_last() =~= pv.take(i - 1));
            assert(pv.take(i as int).last() == (v@[i - 1].0@, v@[i - 1].1@));
        }
        if text::str_eq(v[i - 1].0.as_str(), key) {
            proof {
                lemma_latest_is_map(pv, key@);
            }
            return Some(text::owned(v[i - 1].1.as_str()));
        }
        i -= 1;
    }
    proof {
        lemma_latest_is_map(pv, key@);
        assert(pv.take(0) =~= Seq::<(Seq<char>, Seq<char>)>::empty());
    }
    None
}

/// Credentials offered for authentication, as named values.
#[derive(Debug, Clone)]
pub struct Credentials {
    pairs: Vec<(String, String)>,
}

impl View for Credentials {
    type V = Map<Seq<char>, Seq<char>>;

    closed spec fn view(&self) -> Map<Seq<char>, Seq<char>> {
        pairs_map(pair_views(self.pairs@))
    }
}

impl Credentials {
    pub fn new() -> (r: Credentials)
        ensures
            r@ == Map::<Seq<char>, Seq<char>>::empty(),
    {
        let r = Credentials { pairs: Vec::new() };
        proof {
            assert(pair_views(r.pairs@) =~= Seq::<(Seq<char>, Seq<char>)>::empty());
        }
        r
    }

    /// Sets `key` to `value`, replacing any value it had.
    pub fn insert(&mut self, key: &str, value: &str)
        ensures
            final(self)@ == old(self)@.insert(key@, value@),
    {
        let p = (text::owned(key), text::owned(value));
        proof {
            assert(pair_views(self.pairs@.push(p)) =~= pair_views(self.pairs@).push((key@, value@)));
            assert(pair_views(self.pairs@.push(p)).drop_last() =~= pair_views(self.pairs@));
        }
        self.pairs.push(p);
    }

    /// The value of `key`.
    pub fn get(&self, key: &str) -> (r: Option<String>)
        ensures
            match r {
                Some(s) => self@.contains_key(key@) && self@[key@] == s@,
                None => !self@.contains_key(key@),
            },
    {
        latest(&self.pairs, key)
    }
}

// ───────────────────────── guards ─────────────────────────

/// A way of authenticating users.
pub trait AuthGuard {
    /// Whether the guard keeps its user as `current_user` describes it; a guard
    /// that keeps it elsewhere claims nothing.
    open spec fn tracks_user(&self) -> bool {
        false
    }

    /// The user the guard holds, where it tracks one.
    open spec fn current_user(&self) -> Option<Seq<char>> {
        None
    }

    /// What `validate` answers for these credentials, where the guard knows it.
    open spec fn verdict(&self, credentials: Map<Seq<char>, Seq<char>>) -> Option<Result<(), Seq<char>>> {
        None
    }

    fn name(&self) -> &str;

    fn validate(&self, credentials: &Credentials) -> (r: AuthResult)
        ensures
            self.verdict(credentials@) matches Some(v) ==> verdict_view(r) == v,
    ;

    fn user_id(&self) -> (r: Option<String>)
        ensures
            self.tracks_user() ==> opt_view(r) == self.current_user(),
    ;

    fn set_user(&mut self, id: String)
        ensures
            old(self).tracks_user() ==> final(self).tracks_user() && final(self).current_user()
                == Some(id@),
    ;

    fn logout(&mut self)
        ensures
            old(self).tracks_user() ==> final(self).tracks_user() && final(self).current_user() is None,
    ;
}

/// A user that can be authenticated.
pub trait AuthUser {
    fn auth_id(&self) -> String;

    fn auth_password(&self) -> &str;
}

/// Checks a user name and password.
pub trait CredentialCheck {
    /// What `check` answers for a user name and password, where the checker knows it.
    open spec fn accepts(&self, username: Seq<char>, password: Seq<char>) -> Option<bool> {
        None
    }

    fn check(&self, username: &str, password: &str) -> (r: bool)
        ensures
            self.accepts(username@, password@) matches Some(b) ==> r == b,
    ;
}

/// The answer of a guard, as text: success, or the reason of a failure.
pub open spec fn verdict_view(r: AuthResult) -> Result<(), Seq<char>> {
    match r {
        AuthResult::Success => Ok(()),
        AuthResult::Failure(m) => Err(m@),
    }
}

/// The user name (or else the e-mail) and the password of some credentials, where
/// both are given.
pub open spec fn login_of(c: Map<Seq<char>, Seq<char>>) -> Option<(Seq<char>, Seq<char>)> {
    let user = if c.contains_key("username"@) {
        Some(c["username"@])
    } else if c.contains_key("email"@) {
        Some(c["email"@])
    } else {
        None
    };
    match user {
        Some(u) => if c.contains_key("password"@) {
            Some((u, c["password"@]))
        } else {
            None
        },
        None => None,
    }
}


/// Hashes passwords.
pub trait Hasher {
    fn hash(&self, value: &str) -> String;
}

pub open spec fn opt_view(o: Option<String>) -> Option<Seq<char>> {
    match o {
        Some(s) => Some(s@),
        None => None,
    }
}

/// A guard that checks a user name (or e-mail) and a password.
pub struct BasicGuard {
    name: String,
    current_user: Option<String>,
    provider: Box<dyn CredentialCheck>,
    hasher: Option<Box<dyn Hasher>>,
}

impl BasicGuard {
    pub closed spec fn name_view(&self) -> Seq<char> {
        self.name@
    }

    pub closed spec fn user_view(&self) -> Option<Seq<char>> {
        opt_view(self.current_user)
    }

    pub closed spec fn has_hasher(&self) -> bool {
        self.hasher is Some
    }

    /// What the provider answers for a user name and password, where it knows it.
    pub closed spec fn accepts_view(&self, username: Seq<char>, password: Seq<char>) -> Option<bool> {
        self.provider.accepts(username, password)
    }

    /// What the guard answers for some credentials: `Invalid credentials` without a
    /// user name (or e-mail) and a password, else the provider's answer on them.
    pub open spec fn basic_verdict(&self, c: Map<Seq<char>, Seq<char>>) -> Option<Result<(), Seq<char>>> {
        match login_of(c) {
            None => Some(Err("Invalid credentials"@)),
            Some((u, p)) => match self.accepts_view(u, p) {
                Some(b) => Some(
                    if b {
                        Ok(())
                    } else {
                        Err("Invalid credentials"@)
                    },
                ),
                None => None,
            },
        }
    }

    pub fn new(name: &str, provider: Box<dyn CredentialCheck>) -> (r: BasicGuard)
        ensures
            r.name_view() == name@,
            r.user_view() is None,
            !r.has_hasher(),
    {
        BasicGuard { name: text::owned(name), current_user: None, provider, hasher: None }
    }

    /// Uses `hasher` for passwords.
    pub fn with_hasher(self, hasher: Box<dyn Hasher>) -> (r: BasicGuard)
        ensures
            r.name_view() == self.name_view(),
            r.user_view() == self.user_view(),
            r.has_hasher(),
    {
        BasicGuard {
            name: self.name,
            current_user: self.current_user,
            provider: self.provider,
            hasher: Some(hasher),
        }
    }
}

impl AuthGuard for BasicGuard {
    open spec fn verdict(&self, credentials: Map<Seq<char>, Seq<char>>) -> Option<Result<(), Seq<char>>> {
        self.basic_verdict(credentials)
    }

    open spec fn tracks_user(&self) -> bool {
        true
    }

    open spec fn current_user(&self) -> Option<Seq<char>> {
        self.user_view()
    }

    fn name(&self) -> (r: &str)
        ensures
            r@ == self.name_view(),
    {
        self.name.as_str()
    }

    /// Success only where a user name (or else an e-mail) and a password are given and
    /// the provider accepts them.
    fn validate(&self, credentials: &Credentials) -> (r: AuthResult)
        ensures
            !((credentials@.contains_key("username"@) || credentials@.contains_key("email"@))
                && credentials@.contains_key("password"@)) ==> failed_with(
                r,
                "Invalid credentials"@,
            ),
            r is Failure ==> failed_with(r, "Invalid credentials"@),
    {
        let username = match credentials.get("username") {
            Some(u) => Some(u),
            None => credentials.get("email"),
        };
        let password = credentials.get("password");
        match (username, password) {
            (Some(u), Some(p)) => {
                if self.provider.check(u.as_str(), p.as_str()) {
                    AuthResult::Success
                } else {
                    AuthResult::fail("Invalid credentials")
                }
            },
            _ => AuthResult::fail("Invalid credentials"),
        }
    }

    fn user_id(&self) -> (r: Option<String>)
        ensures
            opt_view(r) == self.user_view(),
    {
        match &self.current_user {
            Some(u) => Some(text::owned(u.as_str())),
            None => None,
        }
    }

    fn set_user(&mut self, id: String)
        ensures
            final(self).user_view() == Some(id@),
            final(self).name_view() == old(self).name_view(),
    {
        self.current_user = Some(id);
    }

    fn logout(&mut self)
        ensures
            final(self).user_view() is None,
            final(self).name_view() == old(self).name_view(),
    {
        self.current_user = None;
    }
}

/// A guard that keeps its user for a session and checks credentials with another guard.
pub struct SessionGuard<G: AuthGuard = Box<dyn AuthGuard>> {
    guard: G,
}

impl<G: AuthGuard> SessionGuard<G> {
    /// A session guard over `guard`: it answers, and keeps its user, as `guard` does.
    pub fn new(guard: G) -> (r: SessionGuard<G>)
        ensures
            forall|c: Map<Seq<char>, Seq<char>>| #[trigger] r.verdict(c) == guard.verdict(c),
            r.tracks_user() == guard.tracks_user(),
            r.current_user() == guard.current_user(),
    {
        SessionGuard { guard }
    }
}

impl<G: AuthGuard> AuthGuard for SessionGuard<G> {
    closed spec fn verdict(&self, credentials: Map<Seq<char>, Seq<char>>) -> Option<Result<(), Seq<char>>> {
        self.guard.verdict(credentials)
    }

    closed spec fn tracks_user(&self) -> bool {
        self.guard.tracks_user()
    }

    closed spec fn current_user(&self) -> Option<Seq<char>> {
        self.guard.current_user()
    }

    fn name(&self) -> &str {
        self.guard.name()
    }

    fn validate(&self, c: &Credentials) -> AuthResult {
        self.guard.validate(c)
    }

    fn user_id(&self) -> Option<String> {
        self.guard.user_id()
    }

    fn set_user(&mut self, id: String) {
        self.guard.set_user(id);
    }

    fn logout(&mut self) {
        self.guard.logout();
    }
}

/// A guard that accepts a fixed list of tokens.
pub struct TokenGuard {
    name: String,
    current_user: Option<String>,
    valid_tokens: Vec<String>,
}

impl TokenGuard {
    pub closed spec fn name_view(&self) -> Seq<char> {
        self.name@
    }

    pub closed spec fn user_view(&self) -> Option<Seq<char>> {
        opt_view(self.current_user)
    }

    pub closed spec fn tokens(&self) -> Seq<Seq<char>> {
        text::str_views(self.valid_tokens@)
    }

    pub fn new(name: &str, tokens: Vec<String>) -> (r: TokenGuard)
        ensures
            r.name_view() == name@,
            r.user_view() is None,
            r.tokens() == text::str_views(tokens@),
    {
        TokenGuard { name: text::owned(name), current_user: None, valid_tokens: tokens }
    }
}

impl AuthGuard for TokenGuard {
    open spec fn verdict(&self, credentials: Map<Seq<char>, Seq<char>>) -> Option<Result<(), Seq<char>>> {
        Some(
            if credentials.contains_key("token"@) && self.tokens().contains(credentials["token"@]) {
                Ok(())
            } else {
                Err("Invalid token"@)
            },
        )
    }

    open spec fn tracks_user(&self) -> bool {
        true
    }

    open spec fn current_user(&self) -> Option<Seq<char>> {
        self.user_view()
    }

    fn name(&self) -> (r: &str)
        ensures
            r@ == self.name_view(),
    {
        self.name.as_str()
    }

    /// Success exactly where the credentials carry a `token` that is one of the valid ones.
    fn validate(&self, credentials: &Credentials) -> (r: AuthResult)
        ensures
            (credentials@.contains_key("token"@) && self.tokens().contains(
                credentials@["token"@],
            )) ==> r is Success,
            !(credentials@.contains_key("token"@) && self.tokens().contains(
                credentials@["token"@],
            )) ==> failed_with(r, "Invalid token"@),
    {
        match credentials.get("token") {
            Some(token) => {
                let mut i: usize = 0;
                while i < self.valid_tokens.len()
                    invariant
                        i <= self.valid_tokens@.len(),
                        credentials@.contains_key("token"@),
                        credentials@["token"@] == token@,
                        forall|j: int| 0 <= j < i ==> self.tokens()[j] != token@,
                    decreases self.valid_tokens@.len() - i,
                {
                    if text::str_eq(self.valid_tokens[i].as_str(), token.as_str()) {
                        proof {
                            assert(self.tokens()[i as int] == token@);
                            assert(self.tokens().contains(token@));
                        }
                        return AuthResult::Success;
                    }
                    i += 1;
                }
                AuthResult::fail("Invalid token")
            },
            None => AuthResult::fail("Invalid token"),
        }
    }

    fn user_id(&self) -> (r: Option<String>)
        ensures
            opt_view(r) == self.user_view(),
    {
        match &self.current_user {
            Some(u) => Some(text::owned(u.as_str())),
            None => None,
        }
    }

    fn set_user(&mut self, id: String)
        ensures
            final(self).user_view() == Some(id@),
            final(self).name_view() == old(self).name_view(),
            final(self).tokens() == old(self).tokens(),
    {
        self.current_user = Some(id);
    }

    fn logout(&mut self)
        ensures
            final(self).user_view() is None,
            final(self).name_view() == old(self).name_view(),
            final(self).tokens() == old(self).tokens(),
    {
        self.current_user = None;
    }
}

impl AuthGuard for Box<dyn AuthGuard> {
    open spec fn verdict(&self, credentials: Map<Seq<char>, Seq<char>>) -> Option<Result<(), Seq<char>>> {
        (**self).verdict(credentials)
    }

    open spec fn tracks_user(&self) -> bool {
        (**self).tracks_user()
    }

    open spec fn current_user(&self) -> Option<Seq<char>> {
        (**self).current_user()
    }

    fn name(&self) -> &str {
        (**self).name()
    }

    fn validate(&self, c: &Credentials) -> AuthResult {
        (**self).validate(c)
    }

    fn user_id(&self) -> Option<String> {
        (**self).user_id()
    }

    fn set_user(&mut self, id: String) {
        (**self).set_user(id);
    }

    fn logout(&mut self) {
        (**self).logout();
    }
}

/// A guard with the name it was registered under.
struct Registered<G> {
    name: String,
    guard: G,
}

/// The guards of an application, by name, with `web` as the default one.
pub struct Auth<G: AuthGuard = Box<dyn AuthGuard>> {
    guards: Vec<Registered<G>>,
    default: String,
}

impl<G: AuthGuard> Auth<G> {
    /// The names of the registered guards.
    pub closed spec fn names(&self) -> Seq<Seq<char>> {
        self.guards@.map_values(|g: Registered<G>| g.name@)
    }

    /// The name of the default guard.
    pub closed spec fn default_name(&self) -> Seq<char> {
        self.default@
    }

    pub closed spec fn wf(&self) -> bool {
        self.names().no_duplicates()
    }

    /// Whether `k` is the first position of a guard named `name`.
    pub closed spec fn first_at(&self, name: Seq<char>, k: int) -> bool {
        &&& 0 <= k < self.names().len()
        &&& self.names()[k] == name
        &&& forall|j: int| 0 <= j < k ==> self.names()[j] != name
    }

    /// The guard registered under `name`, if any.
    pub closed spec fn guard_of(&self, name: Seq<char>) -> Option<G> {
        if self.names().contains(name) {
            Some(self.guards@[choose|k: int| self.first_at(name, k)].guard)
        } else {
            None
        }
    }

    proof fn lemma_wf_first(&self, name: Seq<char>, k: int)
        requires
            self.wf(),
            0 <= k < self.names().len(),
            self.names()[k] == name,
        ensures
            self.first_at(name, k),
    {
        assert forall|j: int| 0 <= j < k implies self.names()[j] != name by {
            assert(self.names()[j] != self.names()[k]);
        }
    }

    proof fn lemma_guard_at(&self, name: Seq<char>, k: int)
        requires
            self.first_at(name, k),
        ensures
            self.guard_of(name) == Some(self.guards@[k].guard),
    {
        assert(self.names().contains(name)) by {
            assert(self.names()[k] == name);
        }
        let c = choose|c: int| self.first_at(name, c);
        assert(self.first_at(name, c));
        if c < k {
            assert(self.names()[c] != name);
        } else if k < c {
            assert(self.names()[k] != name);
        }
    }

    pub fn new() -> (r: Auth<G>)
        ensures
            r.wf(),
            r.names().len() == 0,
            r.default_name() == "web"@,
    {
        let r = Auth { guards: Vec::new(), default: text::owned("web") };
        proof {
            assert(r.names() =~= Seq::<Seq<char>>::empty());
        }
        r
    }

    fn position(&self, name: &str) -> (r: Option<usize>)
        ensures
            match r {
                Some(k) => self.first_at(name@, k as int),
                None => !self.names().contains(name@),
            },
    {
        let mut k: usize = 0;
        while k < self.guards.len()
            invariant
                k <= self.guards@.len(),
                forall|j: int| 0 <= j < k ==> self.names()[j] != name@,
            decreases self.guards@.len() - k,
        {
            if text::str_eq(self.guards[k].name.as_str(), name) {
                return Some(k);
            }
            k += 1;
        }
        None
    }

    /// Registers a guard under `name`, replacing one of the same name.
    pub fn register(&mut self, name: &str, guard: G)
        requires
            old(self).wf(),
        ensures
            final(self).wf(),
            final(self).default_name() == old(self).default_name(),
            if old(self).names().contains(name@) {
                final(self).names() == old(self).names()
            } else {
                final(self).names() == old(self).names().push(name@)
            },
            final(self).guard_of(name@) == Some(guard),
            forall|n: Seq<char>| n != name@ ==> final(self).guard_of(n) == old(self).guard_of(n),
    {
        let ghost old_self = *self;
        let ghost ns = self.names();
        let ghost mut pos: int = ns.len() as int;
        let g = Registered { name: text::owned(name), guard };
        match self.position(name) {
            Some(k) => {
                self.guards.set(k, g);
                proof {
                    pos = k as int;
                    assert(self.names() =~= ns.update(k as int, name@));
                    assert(ns.update(k as int, name@) =~= ns);
                }
            },
            None => {
                self.guards.push(g);
                proof {
                    assert(self.names() =~= ns.push(name@));
                    assert forall|i: int, j: int|
                        0 <= i < ns.len() + 1 && 0 <= j < ns.len() + 1 && i != j implies ns.push(
                        name@,
                    )[i] != ns.push(name@)[j] by {
                        if i < ns.len() && j < ns.len() {
                        } else if i == ns.len() {
                            assert(ns[j] != name@);
                        } else {
                            assert(ns[i] != name@);
                        }
                    }
                }
            },
        }
        proof {
            let ns2 = self.names();
            assert(ns2[pos] == name@);
            self.lemma_wf_first(name@, pos);
            self.lemma_guard_at(name@, pos);
            assert forall|n: Seq<char>| n != name@ implies self.guard_of(n) == old_self.guard_of(n) by {
                if ns.contains(n) {
                    let k0 = choose|k0: int| 0 <= k0 < ns.len() && ns[k0] == n;
                    old_self.lemma_wf_first(n, k0);
                    old_self.lemma_guard_at(n, k0);
                    assert(k0 != pos);
                    assert(ns2[k0] == n);
                    assert(self.guards@[k0] == old_self.guards@[k0]);
                    self.lemma_wf_first(n, k0);
                    self.lemma_guard_at(n, k0);
                } else {
                    assert(!ns2.contains(n)) by {
                        if ns2.contains(n) {
                            let k1 = choose|k1: int| 0 <= k1 < ns2.len() && ns2[k1] == n;
                            if k1 < ns.len() {
                                assert(ns[k1] == n);
                            }
                        }
                    }
                }
            }
        }
    }

    /// The guard registered under `name`.
    pub fn guard(&self, name: &str) -> (r: Option<&G>)
        ensures
            r is Some <==> self.names().contains(name@),
            match r {
                Some(g) => self.guard_of(name@) == Some(*g),
                None => self.guard_of(name@) is None,
            },
    {
        match self.position(name) {
            Some(k) => {
                proof {
                    self.lemma_guard_at(name@, k as int);
                }
                Some(&self.guards[k].guard)
            },
            None => None,
        }
    }

    /// Checks credentials with the default guard; fails with `No guard` without one.
    pub fn attempt(&self, credentials: Credentials) -> (r: AuthResult)
        ensures
            !self.names().contains(self.default_name()) ==> failed_with(r, "No guard"@),
            self.guard_of(self.default_name()) matches Some(g) ==> (g.verdict(credentials@) matches Some(
                v,
            ) ==> verdict_view(r) == v),
    {
        match self.position(self.default.as_str()) {
            Some(k) => {
                proof {
                    self.lemma_guard_at(self.default_name(), k as int);
                }
                self.guards[k].guard.validate(&credentials)
            },
            None => AuthResult::fail("No guard"),
        }
    }

    /// The user of the default guard.
    pub fn user(&self) -> (r: Option<String>)
        ensures
            !self.names().contains(self.default_name()) ==> r is None,
            self.guard_of(self.default_name()) matches Some(g) ==> (g.tracks_user() ==> opt_view(r)
                == g.current_user()),
    {
        match self.position(self.default.as_str()) {
            Some(k) => {
                proof {
                    self.lemma_guard_at(self.default_name(), k as int);
                }
                self.guards[k].guard.user_id()
            },
            None => None,
        }
    }

    /// Whether the default guard has a user.
    pub fn is_authenticated(&self) -> (r: bool)
        ensures
            !self.names().contains(self.default_name()) ==> !r,
            self.guard_of(self.default_name()) matches Some(g) ==> (g.tracks_user() ==> r
                == g.current_user() is Some),
    {
        self.user().is_some()
    }
}

} // verus!
