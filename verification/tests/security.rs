use viontin::auth::{Auth, AuthGuard, AuthResult, BasicGuard, CredentialCheck, Credentials, TokenGuard};
use viontin::csrf::{constant_time_eq, csrf_decision, CsrfConfig, CsrfDecision, CsrfManager, CsrfMiddleware, Session};
use viontin::encryption::{decode, encode, AesEncrypter, Encrypter, SimpleEncrypter};
use viontin::jwt::{JwtGuard, TokenClaims, TokenValidator};

struct Fixed;
impl CredentialCheck for Fixed {
    fn check(&self, username: &str, password: &str) -> bool {
        username == "ada" && password == "secret"
    }
}

struct Accept;
impl TokenValidator for Accept {
    fn validate(&self, token: &str) -> Result<TokenClaims, String> {
        if token == "good" {
            Ok(TokenClaims::new("user-1"))
        } else {
            Err("Invalid token".to_string())
        }
    }
}

fn creds(pairs: &[(&str, &str)]) -> Credentials {
    let mut c = Credentials::new();
    for (k, v) in pairs {
        c.insert(k, v);
    }
    c
}

#[test]
fn auth_results() {
    assert!(AuthResult::ok().is_success());
    let f = AuthResult::fail("nope");
    assert!(!f.is_success());
    assert_eq!(f, AuthResult::Failure("nope".to_string()));
}

#[test]
fn credentials_later_value_wins() {
    let c = creds(&[("a", "1"), ("a", "2")]);
    assert_eq!(c.get("a"), Some("2".to_string()));
    assert_eq!(c.get("b"), None);
}

#[test]
fn basic_guard_checks_credentials() {
    let g = BasicGuard::new("web", Box::new(Fixed));
    assert_eq!(g.name(), "web");
    assert!(g.validate(&creds(&[("username", "ada"), ("password", "secret")])).is_success());
    assert!(g.validate(&creds(&[("email", "ada"), ("password", "secret")])).is_success());
    assert_eq!(
        g.validate(&creds(&[("username", "ada"), ("password", "wrong")])),
        AuthResult::Failure("Invalid credentials".to_string())
    );
    assert_eq!(
        g.validate(&creds(&[("username", "ada")])),
        AuthResult::Failure("Invalid credentials".to_string())
    );
}

#[test]
fn token_guard_and_auth() {
    let mut g = TokenGuard::new("api", vec!["t1".to_string(), "t2".to_string()]);
    assert!(g.validate(&creds(&[("token", "t2")])).is_success());
    assert_eq!(g.validate(&creds(&[("token", "x")])), AuthResult::Failure("Invalid token".to_string()));
    assert_eq!(g.validate(&creds(&[])), AuthResult::Failure("Invalid token".to_string()));
    g.set_user("u9".to_string());
    assert_eq!(g.user_id(), Some("u9".to_string()));
    g.logout();
    assert_eq!(g.user_id(), None);

    let mut auth: Auth<TokenGuard> = Auth::new();
    assert!(!auth.is_authenticated());
    assert_eq!(auth.attempt(creds(&[("token", "t1")])), AuthResult::Failure("No guard".to_string()));
    auth.register("web", TokenGuard::new("web", vec!["t1".to_string()]));
    assert!(auth.guard("web").is_some());
    assert!(auth.guard("api").is_none());
    assert!(auth.attempt(creds(&[("token", "t1")])).is_success());
    assert_eq!(auth.user(), None);
}

#[test]
fn bearer_extraction() {
    assert_eq!(JwtGuard::extract_token(Some("Bearer abc")), Some("abc".to_string()));
    assert_eq!(JwtGuard::extract_token(Some("bearer   xyz  ")), Some("xyz".to_string()));
    assert_eq!(JwtGuard::extract_token(Some("Basic abc")), None);
    assert_eq!(JwtGuard::extract_token(None), None);
}

#[test]
fn jwt_guard_flow() {
    let mut g = JwtGuard::new("jwt", Box::new(Accept));
    assert_eq!(g.authenticate(None), AuthResult::Failure("Missing Bearer token".to_string()));
    assert_eq!(
        g.authenticate(Some("Bearer bad")),
        AuthResult::Failure("Invalid token".to_string())
    );
    assert!(g.authenticate(Some("Bearer good")).is_success());
    assert_eq!(g.user_id(), Some("user-1".to_string()));
    assert_eq!(g.claims().map(|c| c.subject.clone()), Some("user-1".to_string()));
    let expired = TokenClaims::new("old").with_expiry(100);
    assert_eq!(
        g.accept_validation(Ok(expired), 200),
        AuthResult::Failure("Token expired".to_string())
    );
    assert_eq!(g.user_id(), Some("user-1".to_string()));
}

#[test]
fn claims_expiry_and_data() {
    let c = TokenClaims::new("s").with_expiry(10).with_data("role", "admin");
    assert!(!c.is_expired_at(10));
    assert!(c.is_expired_at(11));
    assert!(!TokenClaims::new("s").is_expired());
    assert_eq!(c.data, vec![("role".to_string(), "admin".to_string())]);
}

#[test]
fn hex_codec() {
    assert_eq!(encode(&[0x00, 0xab, 0x7f]), "00ab7f");
    assert_eq!(decode(" 00AB7f "), Ok(vec![0x00, 0xab, 0x7f]));
    assert_eq!(decode("abc"), Err("Odd hex length".to_string()));
    assert_eq!(decode("zz"), Err("Invalid hex char: z".to_string()));
    let bytes = vec![1u8, 2, 250, 255];
    assert_eq!(decode(&encode(&bytes)), Ok(bytes));
}

#[test]
fn simple_encrypter_round_trip() {
    let e = SimpleEncrypter::new("k3y");
    let sealed = e.encrypt_with_salt("hello world", 7);
    assert_eq!(&sealed[..2], "07");
    assert_eq!(e.decrypt_text(&sealed), Ok("hello world".to_string()));
    assert_eq!(e.decrypt_text(""), Err("Empty ciphertext".to_string()));
    let any = e.encrypt("hi");
    assert_eq!(e.decrypt(&any), Ok("hi".to_string()));
    assert_eq!(e.name(), "simple");
    assert!(SimpleEncrypter::keygen_from(255, 16).starts_with("key_ff_10"));
}

#[test]
fn aes_encrypter_round_trip() {
    let e = AesEncrypter::new("passphrase");
    let sealed = e.encrypt_with_nanos("secret data", 123456789);
    assert_eq!(e.decrypt_text(&sealed), Ok("secret data".to_string()));
    let other = AesEncrypter::new("another");
    assert_eq!(
        other.decrypt_text(&sealed),
        Err("Decryption failed (wrong key or corrupted data)".to_string())
    );
    assert_eq!(e.decrypt_text("00"), Err("Ciphertext too short".to_string()));
    assert_eq!(AesEncrypter::keygen_from(1).len(), 64);
}

#[test]
fn csrf_tokens() {
    let m = CsrfManager::new(CsrfConfig::default());
    let t = m.generate_from(42);
    assert_eq!(t.len(), 64);
    assert_eq!(t, m.generate_from(42));
    let mut s = Session::new();
    let first = m.get_or_create(&mut s);
    let again = m.get_or_create(&mut s);
    assert_eq!(first, again);
    assert!(m.validate(&s, &first));
    assert!(!m.validate(&s, "forged"));
    assert!(m.needs_protection("POST", "/orders"));
    assert!(!m.needs_protection("GET", "/orders"));
    assert!(constant_time_eq("abc", "abc"));
    assert!(!constant_time_eq("abc", "abd"));
    assert!(!constant_time_eq("abc", "ab"));
}

#[test]
fn csrf_excluded_paths() {
    let mut cfg = CsrfConfig::default();
    cfg.excluded_paths = vec!["/webhooks".to_string()];
    let m = CsrfManager::new(cfg);
    assert!(!m.needs_protection("POST", "/webhooks/stripe"));
    assert!(m.needs_protection("DELETE", "/items/1"));
}

#[test]
fn csrf_decisions() {
    let m = CsrfManager::new(CsrfConfig::default());
    assert_eq!(
        csrf_decision(&m, "GET", "/", None, None, None, "", "fresh".to_string()),
        CsrfDecision::Issue("fresh".to_string())
    );
    assert_eq!(
        csrf_decision(&m, "POST", "/", None, None, None, "", "fresh".to_string()),
        CsrfDecision::Forbid("CSRF token cookie missing".to_string())
    );
    assert_eq!(
        csrf_decision(&m, "POST", "/", Some("tok"), None, Some("tok"), "", "f".to_string()),
        CsrfDecision::Pass
    );
    assert_eq!(
        csrf_decision(&m, "POST", "/", Some("tok"), None, None, "a=1&_csrf_token=tok", "f".to_string()),
        CsrfDecision::Pass
    );
    assert_eq!(
        csrf_decision(&m, "POST", "/", Some("tok"), None, Some("bad"), "", "f".to_string()),
        CsrfDecision::Forbid("Invalid CSRF token".to_string())
    );
    assert_eq!(
        csrf_decision(&m, "POST", "/", Some("tok"), None, None, "a=1", "f".to_string()),
        CsrfDecision::Forbid("CSRF token missing from request".to_string())
    );
    let mw = CsrfMiddleware::new_default();
    let _ = mw;
}

#[test]
fn content_hash_is_sha256_hex() {
    assert_eq!(
        viontin::encryption::content_hash(b"abc"),
        "ba7816bf8f01cfea414140de5dae2223b00361a396177a9cb410ff61f20015ad"
    );
    assert_eq!(
        viontin::fs::content_hash(b""),
        "e3b0c44298fc1c149afbf4c8996fb92427ae41e4649b934ca495991b7852b855"
    );
}
