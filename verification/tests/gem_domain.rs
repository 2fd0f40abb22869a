use viontin::domain::{
    check_all, find, is_allowed, register, Domain, DomainBoundary, DomainConfig, DomainFile,
    DomainServiceProvider, DomainViolation,
};
use viontin::gem::{
    validate_gem_meta, validate_gem_registration, validate_gem_targets, GemFacade, GemKind, GemMeta,
    GemMetaValidator, GemRegistry, SimpleGem, Version,
};
use viontin::validator::{Outcome, Severity};

fn codes(o: &Outcome) -> Vec<(Severity, String)> {
    o.diagnostics().iter().map(|d| (d.severity, d.code.clone())).collect()
}

#[test]
fn gem_kind_names() {
    assert_eq!(GemKind::Database.as_str(), "Database");
    assert_eq!(GemKind::DevTool.as_str(), "DevTool");
    assert_eq!(GemKind::Custom("wasm").as_str(), "wasm");
}

#[test]
fn gem_meta_builder() {
    let m = GemMeta::new("stripe", "1.0.0", "Payments", GemKind::Integration).homepage("https://x.dev");
    assert_eq!(m.name, "stripe");
    assert_eq!(m.homepage, "https://x.dev");
    assert_eq!(GemMeta::new("a", "0.1.0", "d", GemKind::Auth).homepage, "");
}

#[test]
fn gem_registry_replaces_and_removes() {
    let mut reg: GemRegistry<SimpleGem> = GemRegistry::new();
    assert!(reg.is_empty());
    reg.register(SimpleGem::new(GemMeta::new("a", "1.0.0", "first", GemKind::Theme)));
    reg.register(SimpleGem::new(GemMeta::new("b", "1.0.0", "second", GemKind::Theme)));
    reg.register(SimpleGem::new(GemMeta::new("a", "2.0.0", "again", GemKind::Theme)));
    assert_eq!(reg.len(), 2);
    assert_eq!(reg.iter(), vec!["a".to_string(), "b".to_string()]);
    assert_eq!(reg.get("a").map(|g| g.meta().version), Some("2.0.0"));
    assert!(reg.before_build_all().is_ok());
    assert!(reg.after_build_all().is_ok());
    reg.remove("a");
    assert_eq!(reg.iter(), vec!["b".to_string()]);
    assert!(reg.get("a").is_none());
    reg.remove("zzz");
    assert_eq!(reg.len(), 1);
}

#[test]
fn versions_and_caret() {
    let v = Version::new(1, 2, 3);
    assert_eq!(v.to_string(), "1.2.3");
    assert!(v.caret_matches(&Version::new(1, 2, 3)));
    assert!(v.caret_matches(&Version::new(1, 9, 0)));
    assert!(!v.caret_matches(&Version::new(2, 0, 0)));
    assert!(!v.caret_matches(&Version::new(1, 2, 2)));
    let z = Version::new(0, 3, 1);
    assert!(z.caret_matches(&Version::new(0, 3, 5)));
    assert!(!z.caret_matches(&Version::new(0, 4, 0)));
    let zz = Version::new(0, 0, 4);
    assert!(zz.caret_matches(&Version::new(0, 0, 4)));
    assert!(!zz.caret_matches(&Version::new(0, 0, 5)));
}

#[test]
fn gem_meta_validation() {
    let fw = Version::new(1, 0, 0);
    let ok = validate_gem_meta("good-gem", &Version::new(1, 1, 0), &fw, "auth", Some("https://a.b"));
    assert!(ok.is_ok());
    assert!(ok.diagnostics().is_empty());
    let bad = validate_gem_meta("bad name!", &Version::new(2, 0, 0), &fw, "weird", Some("ftp://x"));
    assert_eq!(
        codes(&bad),
        vec![
            (Severity::Error, "G002".to_string()),
            (Severity::Warning, "G003".to_string()),
            (Severity::Warning, "G004".to_string()),
            (Severity::Warning, "G005".to_string()),
        ]
    );
    assert_eq!(bad.diagnostics()[0].message, "Gem name 'bad name!' contains invalid characters");
    assert_eq!(
        bad.diagnostics()[1].message,
        "Gem version 2.0.0 may not be compatible with framework 1.0.0"
    );
    assert!(!bad.is_ok());
    let empty = validate_gem_meta("", &Version::new(1, 0, 0), &fw, "theme", None);
    assert_eq!(codes(&empty), vec![(Severity::Error, "G001".to_string())]);
    assert_eq!(empty.diagnostics()[0].message, "Gem name must not be empty");
}

#[test]
fn gem_targets_and_registration() {
    let o = validate_gem_targets(&["ssr", "tv"], &["ssr", "api"]);
    assert_eq!(
        codes(&o),
        vec![(Severity::Warning, "G010".to_string()), (Severity::Error, "G011".to_string())]
    );
    assert_eq!(o.diagnostics()[0].message, "Unknown target 'tv' in supports list");
    assert_eq!(
        o.diagnostics()[1].message,
        "Gem declares default_for 'api' but does not list it in supports"
    );
    let r = validate_gem_registration(&["a".to_string()], "a");
    assert_eq!(r.diagnostics()[0].message, "Gem 'a' is already registered");
    assert!(validate_gem_registration(&["a".to_string()], "b").is_ok());
}

#[test]
fn gem_meta_validator() {
    let v = GemMetaValidator {
        gem_name: "x".to_string(),
        gem_version: Version::new(1, 0, 0),
        gem_kind: "lsp".to_string(),
    };
    assert_eq!(v.name(), "gem-meta");
    assert!(v.validate(&Version::new(1, 0, 0)).is_ok());
}

#[test]
fn outcome_collects() {
    let mut o = Outcome::new();
    assert!(o.is_ok());
    o.warning("W1", "careful".to_string());
    assert!(o.is_ok());
    o.error("E1", "broken".to_string());
    assert!(!o.is_ok());
    assert_eq!(o.diagnostics().len(), 2);
    assert_eq!(o.diagnostics()[1].code, "E1");
}

static ORDERS_ALLOWS: [&str; 1] = ["billing"];

#[test]
fn domain_registry() {
    let mut reg: Vec<Domain> = Vec::new();
    register(&mut reg, Domain::new("orders").allows(&ORDERS_ALLOWS));
    register(&mut reg, Domain::new("billing"));
    register(&mut reg, Domain::new("orders"));
    assert_eq!(reg.len(), 2);
    assert_eq!(find(&reg, "orders").map(|d| d.allows.len()), Some(1));
    assert!(find(&reg, "nope").is_none());
    assert!(is_allowed(&reg, "orders", "billing"));
    assert!(!is_allowed(&reg, "billing", "orders"));
    assert!(is_allowed(&reg, "orders", "orders"));
    assert!(is_allowed(&reg, "unknown", "orders"));
}

#[test]
fn import_paths() {
    assert_eq!(DomainBoundary::parse_import_path("use billing::invoice::Invoice;"), Some("billing".to_string()));
    assert_eq!(DomainBoundary::parse_import_path("  use serde;"), Some("serde".to_string()));
    assert_eq!(DomainBoundary::parse_import_path("use crate::x;"), None);
    assert_eq!(DomainBoundary::parse_import_path("use super::x;"), None);
    assert_eq!(DomainBoundary::parse_import_path("let x = 1;"), None);
}

#[test]
fn boundary_violations() {
    let reg = vec![Domain::new("orders").allows(&ORDERS_ALLOWS), Domain::new("billing")];
    let files = vec![
        DomainFile {
            domain: "orders".to_string(),
            path: "src/orders/mod.rs".to_string(),
            content: "use billing::Invoice;\nuse std::fmt;\n".to_string(),
        },
        DomainFile {
            domain: "billing".to_string(),
            path: "src/billing/mod.rs".to_string(),
            content: "use orders::Order;\n".to_string(),
        },
    ];
    let v = check_all(&files, &reg);
    assert_eq!(v.len(), 2);
    assert_eq!(v[0].from_domain, "orders");
    assert_eq!(v[0].to_domain, "billing");
    assert!(v[0].is_warning(&reg));
    assert_eq!(v[1].from_domain, "billing");
    assert_eq!(v[1].to_domain, "orders");
    assert!(v[1].is_error(&reg));
    let loose = DomainViolation {
        from_domain: "ghost".to_string(),
        to_domain: "orders".to_string(),
        source_file: "x.rs".to_string(),
        imported_path: "orders".to_string(),
    };
    assert!(!loose.is_error(&reg));
}

#[test]
fn domain_provider() {
    let p = DomainServiceProvider::new()
        .domain(DomainConfig::new(Domain::new("orders").allows(&ORDERS_ALLOWS)))
        .with_domains(vec![DomainConfig::new(Domain::new("billing"))]);
    assert_eq!(p.id(), "domain");
    let mut reg = Vec::new();
    p.register_domains(&mut reg);
    assert_eq!(reg.len(), 2);
    let lines = DomainServiceProvider::boot_lines(&reg);
    assert_eq!(lines[0], "  [domain] 2 domain(s) registered");
    assert_eq!(lines[1], "    └── orders (allows: billing)");
    assert_eq!(lines[2], "    └── billing (allows: none)");
}
