use viontin::commands::{choose_source, find_package, DepSource};
use viontin::env::is_well_quoted;
use viontin::query::SqlQuery;

#[test]
fn select_with_everything() {
    let q = SqlQuery::new("users").where_eq("id").order_by("name", "asc").limit(5).offset(10);
    assert_eq!(q.sql(), "SELECT * FROM users WHERE id = ? ORDER BY name asc LIMIT 5 OFFSET 10");
}

#[test]
fn select_plain() {
    let q = SqlQuery::new("posts");
    assert_eq!(q.sql(), "SELECT * FROM posts");
}

#[test]
fn select_two_conditions_and_orders() {
    let q = SqlQuery::new("t").where_eq("a").where_eq("b").order_by("a", "desc").order_by("b", "asc");
    assert_eq!(q.sql(), "SELECT * FROM t WHERE a = ? and b = ? ORDER BY a desc, b asc");
}

#[test]
fn count_text_with_and_without_conditions() {
    let q = SqlQuery::new("users");
    assert_eq!(q.count_sql(), "SELECT COUNT(*) as count FROM users ");
    let q = q.where_eq("id").where_eq("age");
    assert_eq!(q.count_sql(), "SELECT COUNT(*) as count FROM users WHERE id = ? AND age = ?");
}

#[test]
fn insert_text_has_one_placeholder_per_column() {
    let q = SqlQuery::new("users");
    let cols = vec!["a".to_string(), "b".to_string()];
    assert_eq!(q.insert_sql(&cols), "INSERT INTO users (a, b) VALUES (?, ?)");
}

#[test]
fn dotenv_quotes() {
    assert!(is_well_quoted("A=1\nB=\"x\"\n"));
    assert!(!is_well_quoted("A=\"\n"));
    assert!(is_well_quoted("# A=\"\n"));
    assert!(!is_well_quoted("A=1\n  B = ' \n"));
}

#[test]
fn dependency_source_order() {
    let s = choose_source(Some("p".to_string()), Some("g".to_string()), None, None);
    assert!(matches!(s, DepSource::Path(ref p) if p == "p"));
    let s = choose_source(None, Some("g".to_string()), Some("1".to_string()), None);
    assert!(matches!(s, DepSource::Git(ref g) if g == "g"));
    let s = choose_source(None, None, Some("1.0".to_string()), None);
    assert!(matches!(s, DepSource::Version(ref v) if v == "1.0"));
    let s = choose_source(None, None, None, Some(("../x".to_string(), vec!["f".to_string()])));
    assert!(matches!(s, DepSource::Local(ref p, ref f) if p == "../x" && f.len() == 1));
    let s = choose_source(None, None, None, None);
    assert!(matches!(s, DepSource::Any));
}

#[test]
fn known_packages_are_found() {
    assert_eq!(find_package("viontin").map(|p| p.name), Some("viontin"));
    assert!(find_package("nope").is_none());
}
