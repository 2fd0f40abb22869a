use viontin::collection::Collection;
use viontin::env::{parse_dotenv, parse_flag, Env, Environment};
use viontin::errors::{ErrorReport, HttpError, SourceLocation};

fn strings(v: &[&str]) -> Vec<String> {
    v.iter().map(|s| s.to_string()).collect()
}

#[test]
fn collection_basics() {
    let c = Collection::new(vec![3i64, 1, 2]);
    assert_eq!(c.count(), 3);
    assert!(!c.is_empty());
    assert_eq!(c.first(), Some(&3));
    assert_eq!(c.last(), Some(&2));
    assert_eq!(c.get(1), Some(&1));
    assert_eq!(c.get(3), None);
    assert!(c.contains(&2));
    assert!(!c.contains(&5));
}

#[test]
fn collection_transforms() {
    let c = Collection::new(vec![1i64, 2, 3, 4, 5]);
    let doubled = c.map(|x| x * 2);
    assert_eq!(doubled.to_vec(), vec![2, 4, 6, 8, 10]);
    let even = c.filter(|x| *x % 2 == 0);
    assert_eq!(even.to_vec(), vec![&2, &4]);
    assert_eq!(c.reduce(0i64, |acc, x| acc + *x), 15);
    assert_eq!(c.reverse().to_vec(), vec![5, 4, 3, 2, 1]);
    assert_eq!(c.take(2).to_vec(), vec![&1, &2]);
    assert_eq!(c.skip(3).to_vec(), vec![&4, &5]);
    assert_eq!(c.take(10).count(), 5);
    assert_eq!(c.skip(10).count(), 0);
}

#[test]
fn collection_chunk_unique_merge() {
    let c = Collection::new(vec![1i64, 2, 3, 4, 5]);
    let chunks = c.chunk(2).to_vec();
    assert_eq!(chunks.len(), 3);
    assert_eq!(chunks[0], vec![&1, &2]);
    assert_eq!(chunks[2], vec![&5]);
    let u = Collection::new(vec![1i64, 2, 1, 3, 2]).unique();
    assert_eq!(u.to_vec(), vec![1, 2, 3]);
    let m = Collection::new(vec![1i64]).merge(Collection::new(vec![2i64, 3]));
    assert_eq!(m.into_inner(), vec![1, 2, 3]);
}

#[test]
fn collection_sum_min_max() {
    let c = Collection::new(vec![4i64, -2, 9]);
    assert_eq!(c.sum(), 11);
    assert_eq!(c.min(), Some(-2));
    assert_eq!(c.max(), Some(9));
    let e: Collection<i64> = Collection::new(vec![]);
    assert_eq!(e.sum(), 0);
    assert_eq!(e.min(), None);
    assert_eq!(e.max(), None);
    let from: Collection<i64> = Collection::from(vec![7i64]);
    assert_eq!(from.items(), &[7]);
}

#[test]
fn collection_sort_is_stable() {
    let c = Collection::new(vec![(2i64, "b"), (1, "x"), (2, "a"), (0, "z")]);
    let sorted = c.sort_by(|a, b| a.0.cmp(&b.0));
    assert_eq!(sorted.to_vec(), vec![(0, "z"), (1, "x"), (2, "b"), (2, "a")]);
    let desc = Collection::new(vec![3i64, 1, 2]).sort_by(|a, b| b.cmp(a));
    assert_eq!(desc.to_vec(), vec![3, 2, 1]);
}

#[test]
fn environment_names() {
    assert_eq!(Environment::from_str("local"), Environment::Local);
    assert_eq!(Environment::from_str("development"), Environment::Local);
    assert_eq!(Environment::from_str("staging"), Environment::Staging);
    assert_eq!(Environment::from_str("production"), Environment::Production);
    assert_eq!(Environment::from_str("testing"), Environment::Testing);
    assert_eq!(Environment::from_str("qa"), Environment::Custom("qa".to_string()));
    assert_eq!(Environment::Custom("qa".to_string()).as_str(), "qa");
    assert_eq!(Environment::Production.as_str(), "production");
    assert!(Environment::Local.is_local());
    assert!(Environment::Development.is_dev());
    assert!(Environment::Production.is_prod());
    assert!(Environment::Testing.is_testing());
    assert!(Environment::Staging.same_as(&Environment::Staging));
    assert!(!Environment::Staging.same_as(&Environment::Production));
}

#[test]
fn environment_detection_precedence() {
    let args = strings(&["app", "--env", "staging"]);
    assert_eq!(Environment::detect_from(&args, Some("production"), true), Environment::Staging);
    let args = strings(&["app", "--env=testing"]);
    assert_eq!(Environment::detect_from(&args, None, true), Environment::Testing);
    let args = strings(&["app"]);
    assert_eq!(Environment::detect_from(&args, Some("production"), true), Environment::Production);
    assert_eq!(Environment::detect_from(&args, None, true), Environment::Local);
    assert_eq!(Environment::detect_from(&args, None, false), Environment::Production);
}

#[test]
fn dotenv_parsing() {
    let content = "# comment\nAPP_NAME=Viontin\n\nDB_HOST = \"localhost\"\nQUOTED='x y'\nnoequals\n";
    let pairs = parse_dotenv(content);
    assert_eq!(
        pairs,
        vec![
            ("APP_NAME".to_string(), "Viontin".to_string()),
            ("DB_HOST".to_string(), "localhost".to_string()),
            ("QUOTED".to_string(), "x y".to_string()),
        ]
    );
}

#[test]
fn env_process_wins_over_loaded() {
    let mut env = Env::from_process(vec![("PORT".to_string(), "8080".to_string())]);
    assert!(env.load("PORT=9000\nDEBUG=yes\nNAME=app\n").is_ok());
    assert_eq!(env.get("PORT", "0"), "8080");
    assert_eq!(env.get_int("PORT", 0), 8080);
    assert!(env.get_bool("DEBUG", false));
    assert_eq!(env.get_opt("NAME"), Some("app".to_string()));
    assert_eq!(env.get("MISSING", "dflt"), "dflt");
    assert_eq!(env.get_int("NAME", 7), 7);
    assert!(env.has("NAME"));
    assert!(!env.has("MISSING"));
    assert_eq!(env.load("X=1"), Err("Env already loaded".to_string()));
}

#[test]
fn flags() {
    assert!(parse_flag("TRUE"));
    assert!(parse_flag("1"));
    assert!(parse_flag("On"));
    assert!(!parse_flag("nope"));
}

#[test]
fn http_errors() {
    let e = HttpError::not_found("missing page");
    assert_eq!(e.status, 404);
    assert_eq!(e.status_text(), "Not Found");
    assert_eq!(e.to_string(), "[404] Not Found: missing page");
    assert_eq!(HttpError::new(418, "teapot").status_text(), "Error");
    assert_eq!(HttpError::internal("x").status, 500);
    assert_eq!(HttpError::unauthorized("x").status, 401);
    assert_eq!(HttpError::forbidden("x").status, 403);
    assert_eq!(HttpError::bad_request("x").status, 400);
    assert_eq!(HttpError::too_many_requests("x").status, 429);
    assert_eq!(HttpError::validation_error(vec![]).status, 422);
}

#[test]
fn error_report_lines() {
    let r = ErrorReport::new("boom", "Panic")
        .with_location(SourceLocation { file: Some("src/main.rs".to_string()), line: 3, column: 7 })
        .with_context("user", "42");
    let lines = r.to_lines();
    assert_eq!(lines[0], "[Panic] boom");
    assert_eq!(lines[1], "  at src/main.rs:3:7");
    assert_eq!(lines[2], "  user: 42");
    let loc = SourceLocation { file: None, line: 1, column: 2 };
    assert_eq!(loc.to_string(), "1:2");
}
