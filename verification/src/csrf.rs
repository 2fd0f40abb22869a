//! Protection against cross-site request forgery: tokens, their checks, and the
//! decision a middleware makes for each request.
use vstd::prelude::*;
use vstd::utf8::encode_utf8;
use crate::text;
use crate::clock;
use crate::auth::{pairs_map, pair_views, latest_value};

verus! {

/// Where a session keeps its token.
pub open spec fn token_key() -> Seq<char> {
    "_csrf_token"@
}

/// The values kept for one visitor between requests.
#[derive(Debug, Clone)]
pub struct Session {
    values: Vec<(String, String)>,
}

impl View for Session {
    type V = Map<Seq<char>, Seq<char>>;

    closed spec fn view(&self) -> Map<Seq<char>, Seq<char>> {
        pairs_map(pair_views(self.values@))
    }
}

impl Session {
    pub fn new() -> (r: Session)
        ensures
            r@ == Map::<Seq<char>, Seq<char>>::empty(),
    {
        let r = Session { values: Vec::new() };
        proof {
            assert(pair_views(r.values@) =~= Seq::<(Seq<char>, Seq<char>)>::empty());
        }
        r
    }

    /// The value of `key`.
    pub fn get(&self, key: &str) -> (r: Option<String>)
        ensures
            match r {
                Some(v) => self@.contains_key(key@) && self@[key@] == v@,
                None => !self@.contains_key(key@),
            },
    {
        self.peek(key)
    }

    /// The value of `key`.
    pub fn peek(&self, key: &str) -> (r: Option<String>)
        ensures
            match r {
                Some(v) => self@.contains_key(key@) && self@[key@] == v@,
                None => !self@.contains_key(key@),
            },
    {
        let ghost pv = pair_views(self.values@);
        let mut i: usize = self.values.len();
        proof {
            assert(pv.take(pv.len() as int) =~= pv);
        }
        while i > 0
            invariant
                i <= self.values@.len(),
                pv == pair_views(self.values@),
                latest_value(pv, key@) == latest_value(pv.take(i as int), key@),
            decreases i,
        {
            proof {
                assert(pv.take(i as int).drop_last() =~= pv.take(i - 1));
            }
            if text::str_eq(self.values[i - 1].0.as_str(), key) {
                proof {
                    crate::auth::lemma_latest_is_map(pv, key@);
                }
                return Some(text::owned(self.values[i - 1].1.as_str()));
            }
            i -= 1;
        }
        proof {
            assert(pv.take(0) =~= Seq::<(Seq<char>, Seq<char>)>::empty());
            crate::auth::lemma_latest_is_map(pv, key@);
        }
        None
    }

    /// Sets `key` to `value`.
    pub fn set(&mut self, key: &str, value: &str)
        ensures
            final(self)@ == old(self)@.insert(key@, value@),
    {
        let p = (text::owned(key), text::owned(value));
        proof {
            assert(pair_views(self.values@.push(p)) =~= pair_views(self.values@).push((key@, value@)));
            assert(pair_views(self.values@.push(p)).drop_last() =~= pair_views(self.values@));
        }
        self.values.push(p);
    }
}

/// How tokens are made and which requests need one.
#[derive(Debug, Clone)]
pub struct CsrfConfig {
    pub token_length: usize,
    pub header_name: String,
    pub form_key: String,
    pub protected_methods: Vec<&'static str>,
    pub excluded_paths: Vec<String>,
}

impl Default for CsrfConfig {
    /// Tokens of 32 bytes, sent in `X-CSRF-Token` or `_csrf_token`, for POST, PUT,
    /// PATCH and DELETE, on every path.
    fn default() -> (r: CsrfConfig)
        ensures
            r.token_length == 32,
            r.header_name@ == "X-CSRF-Token"@,
            r.form_key@ == "_csrf_token"@,
            r.protected_methods@.map_values(|m: &str| m@) == seq![
                "POST"@,
                "PUT"@,
                "PATCH"@,
                "DELETE"@,
            ],
            r.excluded_paths@.len() == 0,
    {
        let mut methods: Vec<&'static str> = Vec::new();
        methods.push("POST");
        methods.push("PUT");
        methods.push("PATCH");
        methods.push("DELETE");
        proof {
            assert(methods@.map_values(|m: &str| m@) =~= seq!["POST"@, "PUT"@, "PATCH"@, "DELETE"@]);
        }
        CsrfConfig {
            token_length: 32,
            header_name: text::owned("X-CSRF-Token"),
            form_key: text::owned("_csrf_token"),
            protected_methods: methods,
            excluded_paths: Vec::new(),
        }
    }
}

/// The multiplier and increment of the token generator.
pub open spec fn lcg_step(s: u64) -> u64 {
    vstd::wrapping::u64_specs::wrapping_add(
        vstd::wrapping::u64_specs::wrapping_mul(s, 6364136223846793005u64),
        1442695040888963407u64,
    )
}

/// The generator's state after `n` steps from `s`.
pub open spec fn lcg_after(s: u64, n: nat) -> u64
    decreases n,
{
    if n == 0 {
        s
    } else {
        lcg_step(lcg_after(s, (n - 1) as nat))
    }
}

/// The bytes of a token made from a seed: after one step on the seed's low 64 bits,
/// each further step gives a byte, bits 33 to 40 of the state.
pub open spec fn token_bytes(seed: u128, len: nat) -> Seq<u8> {
    Seq::new(len, |i: int| (lcg_after(lcg_step(seed as u64), (i + 1) as nat) >> 33u64) as u8)
}

/// Whether a method and a path need a token: the path starts with none of the
/// excluded paths and the method is a protected one.
pub open spec fn protects(methods: Seq<Seq<char>>, excluded: Seq<Seq<char>>, method: Seq<char>, path: Seq<char>) -> bool {
    !(exists|i: int| 0 <= i < excluded.len() && text::starts_with(path, #[trigger] excluded[i]))
        && methods.contains(method)
}

/// A request to a path that begins with an excluded path (the excluded path itself
/// included) needs no token, whatever its method.
pub proof fn lemma_excluded_path_needs_no_token(
    methods: Seq<Seq<char>>,
    excluded: Seq<Seq<char>>,
    method: Seq<char>,
    path: Seq<char>,
    i: int,
)
    requires
        0 <= i < excluded.len(),
        excluded[i].len() <= path.len(),
        path.take(excluded[i].len() as int) == excluded[i],
    ensures
        !protects(methods, excluded, method, path),
{
    assert(excluded[i].is_prefix_of(path));
    assert(text::starts_with(path, excluded[i]));
}

/// A request whose method is not a protected one needs no token, whatever its path.
pub proof fn lemma_unprotected_method_needs_no_token(
    methods: Seq<Seq<char>>,
    excluded: Seq<Seq<char>>,
    method: Seq<char>,
    path: Seq<char>,
)
    requires
        forall|k: int| 0 <= k < methods.len() ==> #[trigger] methods[k] != method,
    ensures
        !protects(methods, excluded, method, path),
{
}

/// A request to a path that begins with no excluded path needs a token exactly when
/// its method is a protected one.
pub proof fn lemma_other_paths_need_token_for_protected_methods(
    methods: Seq<Seq<char>>,
    excluded: Seq<Seq<char>>,
    method: Seq<char>,
    path: Seq<char>,
)
    requires
        forall|i: int|
            0 <= i < excluded.len() ==> !(excluded[i].len() <= path.len() && path.take(
                excluded[i].len() as int,
            ) == #[trigger] excluded[i]),
    ensures
        protects(methods, excluded, method, path) == (exists|k: int| 0 <= k < methods.len() && methods[k] == method),
{
    assert forall|i: int| 0 <= i < excluded.len() implies !text::starts_with(path, #[trigger] excluded[i]) by {
        if excluded[i].is_prefix_of(path) {
            assert(path.take(excluded[i].len() as int) =~= excluded[i]);
        }
    }
}

/// Generates, stores and checks tokens.
#[derive(Debug)]
pub struct CsrfManager {
    config: CsrfConfig,
}

impl CsrfManager {
    pub closed spec fn config_view(&self) -> CsrfConfig {
        self.config
    }

    pub fn new(config: CsrfConfig) -> (r: CsrfManager)
        ensures
            r.config_view() == config,
    {
        CsrfManager { config }
    }

    /// A token made from a seed: `token_length` bytes in hexadecimal.
    pub fn generate_from(&self, seed: u128) -> (r: String)
        ensures
            r@ == crate::encryption::hex_encode(token_bytes(seed, self.config_view().token_length as nat)),
    {
        let n = self.config.token_length;
        let mut state: u64 = (seed as u64).wrapping_mul(6364136223846793005u64).wrapping_add(
            1442695040888963407u64,
        );
        let mut bytes: Vec<u8> = Vec::new();
        let mut i: usize = 0;
        while i < n
            invariant
                i <= n,
                state == lcg_after(lcg_step(seed as u64), i as nat),
                bytes@ == token_bytes(seed, n as nat).take(i as int),
            decreases n - i,
        {
            state = state.wrapping_mul(6364136223846793005u64).wrapping_add(1442695040888963407u64);
            let b = (state >> 33u64) as u8;
            proof {
                assert(token_bytes(seed, n as nat).take(i + 1) =~= token_bytes(seed, n as nat).take(
                    i as int,
                ).push(b));
            }
            bytes.push(b);
            i += 1;
        }
        proof {
            assert(token_bytes(seed, n as nat).take(n as int) =~= token_bytes(seed, n as nat));
        }
        crate::encryption::encode(bytes.as_slice())
    }

    /// A new token, seeded by the clock.
    pub fn generate(&self) -> (r: String)
        ensures
            exists|seed: u128|
                r@ == crate::encryption::hex_encode(
                    #[trigger] token_bytes(seed, self.config_view().token_length as nat),
                ),
    {
        let seed = clock::unix_nanos();
        self.generate_from(seed)
    }

    /// The session's token, or a new one, then stored in the session.
    pub fn get_or_create(&self, session: &mut Session) -> (r: String)
        ensures
            old(session)@.contains_key(token_key()) ==> r@ == old(session)@[token_key()]
                && final(session)@ == old(session)@,
            !old(session)@.contains_key(token_key()) ==> final(session)@ == old(session)@.insert(
                token_key(),
                r@,
            ),
    {
        match session.get("_csrf_token") {
            Some(token) => token,
            None => {
                let token = self.generate();
                session.set("_csrf_token", token.as_str());
                token
            },
        }
    }

    /// Whether `token` is the session's token, compared in constant time.
    pub fn validate(&self, session: &Session, token: &str) -> (r: bool)
        ensures
            r == (session@.contains_key(token_key()) && session@[token_key()] == token@),
    {
        match session.peek("_csrf_token") {
            Some(stored) => constant_time_eq(stored.as_str(), token),
            None => false,
        }
    }

    /// Whether a request needs a token.
    pub fn needs_protection(&self, method: &str, path: &str) -> (r: bool)
        ensures
            r == protects(
                self.config_view().protected_methods@.map_values(|m: &str| m@),
                text::str_views(self.config_view().excluded_paths@),
                method@,
                path@,
            ),
    {
        let ghost ex = text::str_views(self.config.excluded_paths@);
        let pc = text::chars_of(path);
        let mut i: usize = 0;
        while i < self.config.excluded_paths.len()
            invariant
                i <= self.config.excluded_paths@.len(),
                ex == text::str_views(self.config.excluded_paths@),
                pc@ == path@,
                forall|j: int| 0 <= j < i ==> !text::starts_with(path@, #[trigger] ex[j]),
            decreases self.config.excluded_paths@.len() - i,
        {
            let e = text::chars_of(self.config.excluded_paths[i].as_str());
            if text::starts_with_exec(pc.as_slice(), e.as_slice()) {
                proof {
                    assert(ex[i as int] == e@);
                }
                return false;
            }
            i += 1;
        }
        let ghost ms = self.config.protected_methods@.map_values(|m: &str| m@);
        let mut k: usize = 0;
        while k < self.config.protected_methods.len()
            invariant
                k <= self.config.protected_methods@.len(),
                ms == self.config.protected_methods@.map_values(|m: &str| m@),
                ex == text::str_views(self.config.excluded_paths@),
                forall|j: int| 0 <= j < ex.len() ==> !text::starts_with(path@, #[trigger] ex[j]),
                forall|j: int| 0 <= j < k ==> ms[j] != method@,
            decreases self.config.protected_methods@.len() - k,
        {
            if text::str_eq(self.config.protected_methods[k], method) {
                proof {
                    assert(ms[k as int] == method@);
                    assert(ms.contains(method@));
                }
                return true;
            }
            k += 1;
        }
        false
    }

    pub fn config(&self) -> (r: &CsrfConfig)
        ensures
            *r == self.config_view(),
    {
        &self.config
    }
}

/// Whether two strings are equal, comparing every byte whatever the first difference.
pub fn constant_time_eq(a: &str, b: &str) -> (r: bool)
    ensures
        r == (a@ == b@),
{
    let x = a.as_bytes();
    let y = b.as_bytes();
    proof {
        vstd::utf8::encode_utf8_decode_utf8(a@);
        vstd::utf8::encode_utf8_decode_utf8(b@);
    }
    if x.len() != y.len() {
        return false;
    }
    let mut acc: u8 = 0;
    let mut i: usize = 0;
    while i < x.len()
        invariant
            i <= x@.len(),
            x@.len() == y@.len(),
            acc == 0 <==> forall|j: int| 0 <= j < i ==> x@[j] == y@[j],
        decreases x@.len() - i,
    {
        let xi = x[i];
        let yi = y[i];
        let d = xi ^ yi;
        proof {
            assert(d == 0u8 <==> xi == yi) by (bit_vector)
                requires
                    d == xi ^ yi,
            ;
            assert((acc | d) == 0u8 <==> (acc == 0u8 && d == 0u8)) by (bit_vector);
        }
        acc = acc | d;
        i += 1;
    }
    proof {
        if acc == 0 {
            assert(x@ =~= y@);
        }
    }
    acc == 0
}

/// A token that `get_or_create` gives for a session validates against the session
/// it leaves: the session keeps the token it had, or stores the new one.
pub proof fn lemma_issued_token_validates(
    before: Map<Seq<char>, Seq<char>>,
    after: Map<Seq<char>, Seq<char>>,
    token: Seq<char>,
)
    requires
        before.contains_key(token_key()) ==> token == before[token_key()] && after == before,
        !before.contains_key(token_key()) ==> after == before.insert(token_key(), token),
    ensures
        after.contains_key(token_key()) && after[token_key()] == token,
{
}

/// The cookie that carries the token.
pub open spec fn cookie_name() -> Seq<char> {
    "XSRF-TOKEN"@
}

/// What the middleware does with a request.
#[derive(Debug, Clone, PartialEq, Eq)]
pub enum CsrfDecision {
    /// A request that needs no token: pass it on, with a new token in the request and
    /// in the `XSRF-TOKEN` cookie (path `/`, readable by scripts).
    Issue(String),
    /// A request whose token matches: pass it on.
    Pass,
    /// A request refused with 403 Forbidden and this message.
    Forbid(String),
}

/// The value of the first `_csrf_token=` field of a form body: what follows the
/// first `=` up to the next one.
pub open spec fn form_token(body: Seq<char>) -> Option<Seq<char>> {
    match first_with_prefix(text::split_char(body, '&'), "_csrf_token="@) {
        Some(p) => {
            let parts = text::split_char(p, '=');
            Some(if parts.len() > 1 { parts[1] } else { Seq::<char>::empty() })
        },
        None => None,
    }
}

/// The first piece that starts with `prefix`.
pub open spec fn first_with_prefix(pieces: Seq<Seq<char>>, prefix: Seq<char>) -> Option<Seq<char>>
    decreases pieces.len(),
{
    if pieces.len() == 0 {
        None
    } else if text::starts_with(pieces[0], prefix) {
        Some(pieces[0])
    } else {
        first_with_prefix(pieces.drop_first(), prefix)
    }
}

pub open spec fn opt_str(o: Option<&str>) -> Option<Seq<char>> {
    match o {
        Some(s) => Some(s@),
        None => None,
    }
}

/// The decision for a request that needs a token: the stored token comes from the
/// cookie, else the `X-XSRF-Token` header; the provided one from the `X-CSRF-Token`
/// header, else the form body.
pub open spec fn checked_decision(
    cookie: Option<Seq<char>>,
    xsrf_header: Option<Seq<char>>,
    csrf_header: Option<Seq<char>>,
    body: Seq<char>,
) -> Result<(), Seq<char>> {
    let stored = match cookie {
        Some(c) => Some(c),
        None => xsrf_header,
    };
    match stored {
        None => Err("CSRF token cookie missing"@),
        Some(s) => {
            let provided = match csrf_header {
                Some(h) => Some(h),
                None => form_token(body),
            };
            match provided {
                Some(t) => if t == s {
                    Ok(())
                } else {
                    Err("Invalid CSRF token"@)
                },
                None => Err("CSRF token missing from request"@),
            }
        },
    }
}

fn form_token_exec(body: &str) -> (r: Option<String>)
    ensures
        match r {
            Some(t) => form_token(body@) == Some(t@),
            None => form_token(body@) is None,
        },
{
    let bc = text::chars_of(body);
    let pieces = text::split_char_exec(bc.as_slice(), '&');
    let prefix = text::chars_of("_csrf_token=");
    let ghost ps = text::views(pieces@);
    let mut i: usize = 0;
    proof {
        assert(ps.skip(0) =~= ps);
    }
    while i < pieces.len()
        invariant
            i <= pieces@.len(),
            ps == text::views(pieces@),
            ps == text::split_char(body@, '&'),
            prefix@ == "_csrf_token="@,
            first_with_prefix(ps, "_csrf_token="@) == first_with_prefix(ps.skip(i as int), "_csrf_token="@),
        decreases pieces@.len() - i,
    {
        proof {
            assert(ps.skip(i as int).drop_first() =~= ps.skip(i + 1));
            assert(ps.skip(i as int)[0] == pieces@[i as int]@);
        }
        if text::starts_with_exec(pieces[i].as_slice(), prefix.as_slice()) {
            let parts = text::split_char_exec(pieces[i].as_slice(), '=');
            if parts.len() > 1 {
                return Some(text::string_of(parts[1].as_slice()));
            } else {
                return Some(String::new());
            }
        }
        i += 1;
    }
    proof {
        assert(ps.skip(i as int).len() == 0);
    }
    None
}

/// The middleware's decision for a request, given a freshly generated token.
pub fn csrf_decision(
    manager: &CsrfManager,
    method: &str,
    path: &str,
    cookie: Option<&str>,
    xsrf_header: Option<&str>,
    csrf_header: Option<&str>,
    body: &str,
    fresh_token: String,
) -> (r: CsrfDecision)
    ensures
        !protects(
            manager.config_view().protected_methods@.map_values(|m: &str| m@),
            text::str_views(manager.config_view().excluded_paths@),
            method@,
            path@,
        ) ==> r == CsrfDecision::Issue(fresh_token),
        protects(
            manager.config_view().protected_methods@.map_values(|m: &str| m@),
            text::str_views(manager.config_view().excluded_paths@),
            method@,
            path@,
        ) ==> match checked_decision(opt_str(cookie), opt_str(xsrf_header), opt_str(csrf_header), body@) {
            Ok(()) => r == CsrfDecision::Pass,
            Err(m) => r matches CsrfDecision::Forbid(x) && x@ == m,
        },
{
    if !manager.needs_protection(method, path) {
        return CsrfDecision::Issue(fresh_token);
    }
    let stored = match cookie {
        Some(c) => text::owned(c),
        None => match xsrf_header {
            Some(h) => text::owned(h),
            None => {
                return CsrfDecision::Forbid(text::owned("CSRF token cookie missing"));
            },
        },
    };
    let provided = match csrf_header {
        Some(h) => Some(text::owned(h)),
        None => form_token_exec(body),
    };
    match provided {
        Some(t) => {
            if constant_time_eq(stored.as_str(), t.as_str()) {
                CsrfDecision::Pass
            } else {
                CsrfDecision::Forbid(text::owned("Invalid CSRF token"))
            }
        },
        None => CsrfDecision::Forbid(text::owned("CSRF token missing from request")),
    }
}

/// The middleware that checks tokens on requests that change state.
#[derive(Debug)]
pub struct CsrfMiddleware {
    manager: CsrfManager,
}

impl CsrfMiddleware {
    pub closed spec fn manager_view(&self) -> CsrfManager {
        self.manager
    }

    pub fn new(config: CsrfConfig) -> (r: CsrfMiddleware)
        ensures
            r.manager_view().config_view() == config,
    {
        CsrfMiddleware { manager: CsrfManager::new(config) }
    }

    pub fn new_default() -> (r: CsrfMiddleware)
        ensures
            r.manager_view().config_view().token_length == 32,
            r.manager_view().config_view().header_name@ == "X-CSRF-Token"@,
            r.manager_view().config_view().form_key@ == "_csrf_token"@,
            r.manager_view().config_view().protected_methods@.map_values(|m: &str| m@) == seq![
                "POST"@,
                "PUT"@,
                "PATCH"@,
                "DELETE"@,
            ],
            r.manager_view().config_view().excluded_paths@.len() == 0,
    {
        CsrfMiddleware { manager: CsrfManager::new(CsrfConfig::default()) }
    }

    /// The decision for a request, with a token generated for it.
    pub fn decide(
        &self,
        method: &str,
        path: &str,
        cookie: Option<&str>,
        xsrf_header: Option<&str>,
        csrf_header: Option<&str>,
        body: &str,
    ) -> (r: CsrfDecision)
        ensures
            !protects(
                self.manager_view().config_view().protected_methods@.map_values(|m: &str| m@),
                text::str_views(self.manager_view().config_view().excluded_paths@),
                method@,
                path@,
            ) ==> (r matches CsrfDecision::Issue(t) && exists|seed: u128|
                t@ == crate::encryption::hex_encode(
                    #[trigger] token_bytes(seed, self.manager_view().config_view().token_length as nat),
                )),
            protects(
                self.manager_view().config_view().protected_methods@.map_values(|m: &str| m@),
                text::str_views(self.manager_view().config_view().excluded_paths@),
                method@,
                path@,
            ) ==> match checked_decision(opt_str(cookie), opt_str(xsrf_header), opt_str(csrf_header), body@) {
                Ok(()) => r == CsrfDecision::Pass,
                Err(m) => r matches CsrfDecision::Forbid(x) && x@ == m,
            },
    {
        let fresh = self.manager.generate();
        csrf_decision(&self.manager, method, path, cookie, xsrf_header, csrf_header, body, fresh)
    }
}

/// Lowercase hexadecimal text of bytes.
pub fn encode(bytes: &[u8]) -> (r: String)
    ensures
        r@ == crate::encryption::hex_encode(bytes@),
{
    crate::encryption::encode(bytes)
}

} // verus!
