//! Bearer tokens: extracting them from an `Authorization` header and checking their claims.
use vstd::prelude::*;
use crate::text;
use crate::clock;
use crate::auth::{AuthGuard, AuthResult, Credentials, failed_with, opt_view, pairs_map, pair_views};

verus! {

/// What a validated token says: whose it is, until when it holds, and other data.
#[derive(Debug, Clone)]
pub struct TokenClaims {
    pub subject: String,
    pub expires_at: Option<u64>,
    /// Named values; a later pair replaces an earlier one with the same name.
    pub data: Vec<(String, String)>,
}

impl TokenClaims {
    /// The named values of the claims.
    pub open spec fn data_map(&self) -> Map<Seq<char>, Seq<char>> {
        pairs_map(pair_views(self.data@))
    }

    pub fn new(subject: &str) -> (r: TokenClaims)
        ensures
            r.subject@ == subject@,
            r.expires_at is None,
            r.data_map() == Map::<Seq<char>, Seq<char>>::empty(),
    {
        let r = TokenClaims { subject: text::owned(subject), expires_at: None, data: Vec::new() };
        proof {
            assert(pair_views(r.data@) =~= Seq::<(Seq<char>, Seq<char>)>::empty());
        }
        r
    }

    pub fn with_expiry(self, ts: u64) -> (r: TokenClaims)
        ensures
            r.subject == self.subject,
            r.expires_at == Some(ts),
            r.data == self.data,
    {
        TokenClaims { subject: self.subject, expires_at: Some(ts), data: self.data }
    }

    pub fn with_data(self, key: &str, value: &str) -> (r: TokenClaims)
        ensures
            r.subject == self.subject,
            r.expires_at == self.expires_at,
            r.data_map() == self.data_map().insert(key@, value@),
    {
        let mut data = self.data;
        let p = (text::owned(key), text::owned(value));
        proof {
            assert(pair_views(data@.push(p)) =~= pair_views(data@).push((key@, value@)));
            assert(pair_views(data@.push(p)).drop_last() =~= pair_views(data@));
        }
        data.push(p);
        TokenClaims { subject: self.subject, expires_at: self.expires_at, data }
    }

    /// Whether the claims have expired at time `now` (seconds since the epoch): they
    /// have an expiry and `now` is past it.
    pub fn is_expired_at(&self, now: u64) -> (r: bool)
        ensures
            r == match self.expires_at {
                Some(exp) => now > exp,
                None => false,
            },
    {
        match self.expires_at {
            Some(exp) => now > exp,
            None => false,
        }
    }

    /// Whether the claims have expired by the clock; without an expiry they never do.
    pub fn is_expired(&self) -> (r: bool)
        ensures
            self.expires_at is None ==> !r,
            exists|now: u64| r == #[trigger] self.is_expired_at_spec(now),
    {
        let now = clock::unix_now();
        let r = self.is_expired_at(now);
        proof {
            assert(r == self.is_expired_at_spec(now));
        }
        r
    }
}

/// Checks a token and gives its claims, or the reason it is refused.
pub trait TokenValidator {
    /// What `validate` answers for a token, where the validator knows it.
    open spec fn verdict(&self, token: Seq<char>) -> Option<Result<TokenClaims, Seq<char>>> {
        None
    }

    fn validate(&self, token: &str) -> (r: Result<TokenClaims, String>)
        ensures
            self.verdict(token@) matches Some(v) ==> claims_result_view(r) == v,
    ;
}

/// A validator's answer, with the reason of a refusal as text.
pub open spec fn claims_result_view(r: Result<TokenClaims, String>) -> Result<TokenClaims, Seq<char>> {
    match r {
        Ok(c) => Ok(c),
        Err(e) => Err(e@),
    }
}

/// The guard after applying a validator's answer at time `now`: claims that have
/// expired fail with `Token expired`; a refusal fails with its reason; in both cases
/// the user and claims stay. Otherwise the claims' subject becomes the user and the
/// claims are kept.
pub open spec fn validation_applied(
    before: JwtGuard,
    after: JwtGuard,
    verdict: Result<TokenClaims, Seq<char>>,
    now: u64,
    r: AuthResult,
) -> bool {
    &&& after.name_view() == before.name_view()
    &&& match verdict {
        Ok(c) => if c.is_expired_at_spec(now) {
            failed_with(r, "Token expired"@) && after.user_view() == before.user_view()
                && after.claims_view() == before.claims_view()
        } else {
            r is Success && after.user_view() == Some(c.subject@) && after.claims_view() == Some(c)
        },
        Err(e) => failed_with(r, e) && after.user_view() == before.user_view() && after.claims_view()
            == before.claims_view(),
    }
}

/// The token of an `Authorization` header: what follows `Bearer ` (in any case),
/// trimmed; none without such a header.
pub open spec fn bearer_token(header: Option<Seq<char>>) -> Option<Seq<char>> {
    match header {
        Some(h) => if text::starts_with(text::lowercase(h), "bearer "@) && h.len() >= 7 {
            Some(text::trim(h.skip(7)))
        } else {
            None
        },
        None => None,
    }
}

/// A guard that accepts bearer tokens that its validator accepts.
pub struct JwtGuard {
    name: String,
    current_user: Option<String>,
    current_claims: Option<TokenClaims>,
    validator: Box<dyn TokenValidator>,
}

pub open spec fn header_view(h: Option<&str>) -> Option<Seq<char>> {
    match h {
        Some(s) => Some(s@),
        None => None,
    }
}

impl JwtGuard {
    pub closed spec fn name_view(&self) -> Seq<char> {
        self.name@
    }

    pub closed spec fn user_view(&self) -> Option<Seq<char>> {
        opt_view(self.current_user)
    }

    pub closed spec fn claims_view(&self) -> Option<TokenClaims> {
        self.current_claims
    }

    /// What the validator answers for a token, where it knows it.
    pub closed spec fn validator_verdict(&self, token: Seq<char>) -> Option<Result<TokenClaims, Seq<char>>> {
        self.validator.verdict(token)
    }

    pub fn new(name: &str, validator: Box<dyn TokenValidator>) -> (r: JwtGuard)
        ensures
            r.name_view() == name@,
            r.user_view() is None,
            r.claims_view() is None,
    {
        JwtGuard { name: text::owned(name), current_user: None, current_claims: None, validator }
    }

    /// The bearer token of an `Authorization` header.
    pub fn extract_token(authorization: Option<&str>) -> (r: Option<String>)
        ensures
            opt_view(r) == bearer_token(header_view(authorization)),
    {
        match authorization {
            Some(h) => {
                let lower = text::to_lowercase(h);
                let lc = text::chars_of(lower.as_str());
                let pre = text::chars_of("bearer ");
                proof {
                    reveal_strlit("bearer ");
                }
                let hc = text::chars_of(h);
                if text::starts_with_exec(lc.as_slice(), pre.as_slice()) && hc.len() >= 7 {
                    let rest = text::slice_chars(hc.as_slice(), 7, hc.len());
                    let t = text::trim_exec(rest.as_slice());
                    proof {
                        assert(rest@ =~= h@.skip(7));
                    }
                    Some(text::string_of(t.as_slice()))
                } else {
                    None
                }
            },
            None => None,
        }
    }

    /// Whether the guard has the same validator as `other`.
    pub closed spec fn validator_verdict_same(&self, other: &JwtGuard) -> bool {
        forall|t: Seq<char>| #[trigger] self.validator_verdict(t) == other.validator_verdict(t)
    }

    /// The validator's verdict on a token.
    pub fn validate_token(&self, token: &str) -> (r: Result<TokenClaims, String>)
        ensures
            self.validator_verdict(token@) matches Some(v) ==> claims_result_view(r) == v,
    {
        self.validator.validate(token)
    }

    /// The claims of the last successful authentication.
    pub fn claims(&self) -> (r: Option<&TokenClaims>)
        ensures
            match r {
                Some(c) => self.claims_view() == Some(*c),
                None => self.claims_view() is None,
            },
    {
        match &self.current_claims {
            Some(c) => Some(c),
            None => None,
        }
    }

    /// Applies a validator's verdict at time `now`: claims that have expired fail with
    /// `Token expired`; a refusal fails with its reason; otherwise the claims' subject
    /// becomes the user and the claims are kept.
    pub fn accept_validation(&mut self, verdict: Result<TokenClaims, String>, now: u64) -> (r:
        AuthResult)
        ensures
            validation_applied(*old(self), *final(self), claims_result_view(verdict), now, r),
            final(self).validator_verdict_same(old(self)),
    {
        match verdict {
            Ok(claims) => {
                if claims.is_expired_at(now) {
                    return AuthResult::fail("Token expired");
                }
                self.current_user = Some(text::owned(claims.subject.as_str()));
                self.current_claims = Some(claims);
                AuthResult::Success
            },
            Err(e) => AuthResult::Failure(e),
        }
    }

    /// Authenticates with the bearer token of an `Authorization` header; fails with
    /// `Missing Bearer token` without one.
    pub fn authenticate(&mut self, authorization: Option<&str>) -> (r: AuthResult)
        ensures
            final(self).name_view() == old(self).name_view(),
            bearer_token(header_view(authorization)) is None ==> failed_with(
                r,
                "Missing Bearer token"@,
            ) && final(self).user_view() == old(self).user_view(),
            r is Success ==> final(self).user_view() is Some,
            bearer_token(header_view(authorization)) matches Some(t) ==> (old(self).validator_verdict(t)
                matches Some(v) ==> exists|now: u64|
                #[trigger] validation_applied(*old(self), *final(self), v, now, r)),
    {
        match Self::extract_token(authorization) {
            Some(token) => {
                let verdict = self.validate_token(token.as_str());
                let now = clock::unix_now();
                let ghost before = *self;
                let r = self.accept_validation(verdict, now);
                proof {
                    assert(validation_applied(before, *self, claims_result_view(verdict), now, r));
                }
                r
            },
            None => AuthResult::fail("Missing Bearer token"),
        }
    }
}

impl TokenClaims {
    pub open spec fn is_expired_at_spec(&self, now: u64) -> bool {
        match self.expires_at {
            Some(exp) => now > exp,
            None => false,
        }
    }
}

impl AuthGuard for JwtGuard {
    /// `No token provided` without a token; else the validator's answer on it.
    open spec fn verdict(&self, credentials: Map<Seq<char>, Seq<char>>) -> Option<Result<(), Seq<char>>> {
        if credentials.contains_key("token"@) {
            match self.validator_verdict(credentials["token"@]) {
                Some(Ok(_)) => Some(Ok(())),
                Some(Err(e)) => Some(Err(e)),
                None => None,
            }
        } else {
            Some(Err("No token provided"@))
        }
    }

    fn name(&self) -> (r: &str)
        ensures
            r@ == self.name_view(),
    {
        self.name.as_str()
    }

    /// Success where the credentials carry a `token` the validator accepts; otherwise
    /// the validator's reason, or `No token provided`.
    fn validate(&self, credentials: &Credentials) -> (r: AuthResult)
        ensures
            !credentials@.contains_key("token"@) ==> failed_with(r, "No token provided"@),
    {
        match credentials.get("token") {
            Some(token) => match self.validate_token(token.as_str()) {
                Ok(_) => AuthResult::Success,
                Err(e) => AuthResult::Failure(e),
            },
            None => AuthResult::fail("No token provided"),
        }
    }

    fn user_id(&self) -> (r: Option<String>)
        ensures
            opt_view(r) == self.user_view(),
    {
        match &self.current_user {
            Some(u) => Some(text::owned(u.as_str())),
            None => None,
        }
    }

    fn set_user(&mut self, id: String)
        ensures
            final(self).user_view() == Some(id@),
            final(self).claims_view() == old(self).claims_view(),
            final(self).name_view() == old(self).name_view(),
    {
        self.current_user = Some(id);
    }

    fn logout(&mut self)
        ensures
            final(self).user_view() is None,
            final(self).claims_view() is None,
            final(self).name_view() == old(self).name_view(),
    {
        self.current_user = None;
        self.current_claims = None;
    }
}

} // verus!
