use viontin::application::{
    debug_mode_value, is_default_provider, provider_error, provider_matches_env, sort_provider_indices,
    BootEvent, BootPayload, BootPhase, ConfigProvider, EnvProvider, ProviderInfo,
};
use viontin::cache::{
    cache_file_name, file_entry, file_expired_at, read_file_expiry, read_file_value, Cache, CacheDriver,
    MemoryCache, NullCache,
};
use viontin::config::{auto_type, Config, ConfigRepository, ConfigValue, EnvVar, FloatValue};
use viontin::env::Environment;
use viontin::redis::{encode_command, read_element_line, read_first_line, reply_is_one, RedisCache, RespNext};

#[test]
fn memory_cache_expiry() {
    let mut c = MemoryCache::new();
    c.set_at("a", "1", Some(10), 100);
    c.set_at("b", "2", None, 100);
    assert_eq!(c.get_at("a", 110), Some("1".to_string()));
    assert_eq!(c.get_at("a", 111), None);
    assert_eq!(c.get_at("b", 1_000_000), Some("2".to_string()));
    c.remove("b");
    assert_eq!(c.get_at("b", 100), None);
    assert_eq!(c.increment_at("n", 5, 100), 5);
    assert_eq!(c.increment_at("n", -2, 100), 3);
    assert_eq!(c.get_at("n", 100), Some("3".to_string()));
}

#[test]
fn cache_facade() {
    let mut cache: Cache<MemoryCache> = Cache::with_driver(MemoryCache::new()).with_prefix("app");
    assert_eq!(cache.p("user"), "app:user");
    cache.set("k", "v", None);
    assert_eq!(cache.get("k"), Some("v".to_string()));
    assert!(cache.has("k"));
    assert_eq!(cache.pull("k"), Some("v".to_string()));
    assert!(!cache.has("k"));
    assert_eq!(cache.remember("r", 60, || "computed".to_string()), "computed");
    assert_eq!(cache.remember("r", 60, || "other".to_string()), "computed");
    assert_eq!(cache.increment("hits", 2), 2);
    cache.delete("r");
    assert_eq!(cache.get("r"), None);
    cache.clear();
    assert_eq!(cache.get("hits"), None);
    let plain: Cache<MemoryCache> = Cache::with_driver(MemoryCache::new());
    assert_eq!(plain.p("user"), "user");
}

#[test]
fn null_cache_keeps_nothing() {
    let mut n = NullCache;
    n.set("a", "b", None);
    assert_eq!(n.get("a"), None);
    assert!(!n.has("a"));
}

#[test]
fn cache_files() {
    assert_eq!(cache_file_name("user:42/profile"), "user_42_profile.cache");
    let e = file_entry(500, "payload\nline2");
    assert_eq!(e, "500\npayload\nline2");
    assert_eq!(read_file_expiry(&e), Some(500));
    assert_eq!(read_file_value(&e), Some("payload".to_string()));
    assert!(!file_expired_at(&e, 500));
    assert!(file_expired_at(&e, 501));
    assert!(file_expired_at("0\nno ttl", 5));
    assert!(!file_expired_at("garbage", 5));
}

#[test]
fn redis_settings_and_protocol() {
    let r = RedisCache::localhost().prefix("app").timeout_secs(3);
    assert_eq!(r.address(), "127.0.0.1:6379");
    assert_eq!(r.key("k"), "app:k");
    assert_eq!(r.timeout(), 3);
    let cmd = encode_command(&[b"GET".to_vec(), b"k".to_vec()]);
    assert_eq!(cmd, b"*2\r\n$3\r\nGET\r\n$1\r\nk\r\n".to_vec());
    assert_eq!(read_first_line("+OK\r\n"), RespNext::Done(Ok(b"OK".to_vec())));
    assert_eq!(read_first_line(":7"), RespNext::Done(Ok(b"7".to_vec())));
    assert_eq!(read_first_line("-ERR bad"), RespNext::Done(Err("Redis: ERR bad".to_string())));
    assert_eq!(read_first_line("$5"), RespNext::ReadBulk(5));
    assert_eq!(read_first_line("$-1"), RespNext::Done(Ok(vec![])));
    assert_eq!(read_first_line("*3"), RespNext::ReadArray(3));
    assert_eq!(read_first_line("?x"), RespNext::Done(Err("Unexpected Redis response".to_string())));
    assert_eq!(read_element_line("$4"), Ok(Some(4)));
    assert_eq!(read_element_line("$-1"), Ok(None));
    assert!(reply_is_one(b"1"));
    assert!(!reply_is_one(b"0"));
}

fn table(pairs: Vec<(&str, ConfigValue)>) -> ConfigValue {
    ConfigValue::Table(pairs.into_iter().map(|(k, v)| (k.to_string(), v)).collect())
}

fn sample_repo() -> ConfigRepository {
    let mut repo = ConfigRepository::new();
    let parsed = vec![
        ("host".to_string(), ConfigValue::String("localhost".to_string())),
        ("port".to_string(), ConfigValue::I64(5432)),
        ("pool".to_string(), table(vec![("max", ConfigValue::String("10".to_string()))])),
        ("debug".to_string(), ConfigValue::String("Yes".to_string())),
        (
            "password".to_string(),
            ConfigValue::Array(vec![ConfigValue::String("env:DB_PASS".to_string()), ConfigValue::String("none".to_string())]),
        ),
        (
            "user".to_string(),
            ConfigValue::Array(vec![ConfigValue::String("env:DB_USER".to_string()), ConfigValue::String("root".to_string())]),
        ),
        ("ratio".to_string(), ConfigValue::F64(FloatValue { repr: "2.5".to_string(), whole: 2 })),
    ];
    let env = vec![EnvVar { name: "DB_PASS".to_string(), value: "s3cret".to_string(), as_float: None }];
    assert!(repo.load_json("database", Ok(parsed), &env).is_ok());
    repo
}

#[test]
fn config_dotted_reads() {
    let repo = sample_repo();
    assert_eq!(repo.string("database.host"), Some("localhost"));
    assert_eq!(repo.integer("database.port"), Some(5432));
    assert_eq!(repo.integer("database.pool.max"), Some(10));
    assert_eq!(repo.integer("database.ratio"), Some(2));
    assert_eq!(repo.bool("database.debug"), Some(true));
    assert_eq!(repo.string("database.password"), Some("s3cret"));
    assert_eq!(repo.string("database.user"), Some("root"));
    assert!(repo.has("database"));
    assert!(!repo.has("database.nope"));
    assert!(repo.object("database.pool").is_some());
    assert!(repo.array("database.pool").is_none());
    assert_eq!(repo.string("database.port"), None);
}

#[test]
fn config_set_freeze_and_overlay() {
    let mut repo = sample_repo();
    repo.set("app.name", ConfigValue::String("demo".to_string()));
    assert_eq!(repo.string("app.name"), Some("demo"));
    let vars = vec![
        EnvVar { name: "APP_APP_NAME".to_string(), value: "42".to_string(), as_float: None },
        EnvVar { name: "APP_MISSING_KEY".to_string(), value: "x".to_string(), as_float: None },
        EnvVar { name: "OTHER".to_string(), value: "y".to_string(), as_float: None },
    ];
    repo.apply_env_overlay("APP_", &vars);
    assert_eq!(repo.integer("app.name"), Some(42));
    assert!(!repo.has("missing.key"));
    repo.freeze();
    assert!(repo.is_frozen());
    repo.set("app.name", ConfigValue::Bool(true));
    assert_eq!(repo.integer("app.name"), Some(42));
    assert_eq!(repo.all().len(), 2);
}

#[test]
fn config_load_errors_and_types() {
    let mut repo = ConfigRepository::new();
    assert_eq!(
        repo.load_json("x", Err("expected value".to_string()), &[]),
        Err("Config parse error: expected value".to_string())
    );
    assert!(matches!(auto_type("12", None), ConfigValue::I64(12)));
    assert!(matches!(auto_type("on", None), ConfigValue::Bool(true)));
    assert!(matches!(auto_type("OFF", None), ConfigValue::Bool(false)));
    assert!(matches!(auto_type("1.5", Some(FloatValue { repr: "1.5".to_string(), whole: 1 })), ConfigValue::F64(_)));
    match auto_type("hello", None) {
        ConfigValue::String(s) => assert_eq!(s, "hello"),
        other => panic!("unexpected {:?}", other),
    }
}

#[test]
fn config_facade() {
    let mut cfg = Config::init(sample_repo());
    assert_eq!(cfg.get("database.port", "0"), "5432");
    assert_eq!(cfg.get("database.ratio", "0"), "2.5");
    assert_eq!(cfg.get("database.missing", "dflt"), "dflt");
    assert_eq!(cfg.get_opt("database.host"), Some("localhost".to_string()));
    assert_eq!(cfg.get_int("database.host", 7), 7);
    assert!(cfg.get_bool("database.debug", false));
    assert!(cfg.has("database.pool.max"));
    cfg.set("flag", ConfigValue::Bool(false));
    assert_eq!(cfg.get("flag", ""), "false");
    cfg.freeze();
    cfg.set("flag", ConfigValue::Bool(true));
    assert_eq!(cfg.get("flag", ""), "false");
    cfg.apply_env_overlay(&[]);
}

#[test]
fn boot_phases_and_events() {
    assert_eq!(BootPhase::ConfigLoaded.as_str(), "config-loaded");
    assert_eq!(BootPhase::ShuttingDown.as_str(), "shutting-down");
    let e = BootEvent::new(BootPhase::Booting, "providers.booted").with_payload(BootPayload::ServiceCount(3));
    assert_eq!(e.phase, BootPhase::Booting);
    assert_eq!(e.event_type, "providers.booted");
    assert!(matches!(e.payload, Some(BootPayload::ServiceCount(3))));
    assert_eq!(provider_error("log", "boot", "no file"), "[log] boot: no file");
    assert_eq!(EnvProvider.id(), "env");
    assert_eq!(ConfigProvider.depends_on(), vec!["env"]);
    assert!(is_default_provider("queue"));
    assert!(!is_default_provider("route"));
    assert_eq!(debug_mode_value(false, "TRUE"), Some("true"));
    assert_eq!(debug_mode_value(false, "0"), Some("false"));
    assert_eq!(debug_mode_value(false, ""), None);
    assert_eq!(debug_mode_value(true, "true"), None);
}

fn info(id: &str, deps: &[&str], priority: u8, in_env: bool) -> ProviderInfo {
    ProviderInfo {
        id: id.to_string(),
        depends_on: deps.iter().map(|d| d.to_string()).collect(),
        priority,
        in_env,
    }
}

#[test]
fn provider_order_respects_dependencies_and_priority() {
    let infos = vec![
        info("log", &["config"], 100, true),
        info("config", &["env"], 100, true),
        info("env", &[], 100, true),
        info("early", &[], 10, true),
        info("skipped", &[], 1, false),
    ];
    assert_eq!(sort_provider_indices(&infos), vec![3, 2, 1, 0]);
    let cyclic = vec![info("a", &["b"], 100, true), info("b", &["a"], 100, true)];
    assert_eq!(sort_provider_indices(&cyclic), vec![1, 0]);
    let dep_outside_env = vec![info("web", &["db"], 100, true), info("db", &[], 100, false)];
    assert_eq!(sort_provider_indices(&dep_outside_env), vec![1, 0]);
}

#[test]
fn provider_environments() {
    let allowed = [Environment::Local, Environment::Testing];
    assert!(provider_matches_env(Some(&allowed), &Environment::Testing));
    assert!(!provider_matches_env(Some(&allowed), &Environment::Production));
    assert!(provider_matches_env(None, &Environment::Production));
}
