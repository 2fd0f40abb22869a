use viontin::arch::{parse_domain_allows, parse_use_path, sub_file_names, Say};
use viontin::cli::exit::ExitCode;
use viontin::cli::output::{Level, Log, LogEntry, Output, Stream};
use viontin::commands::{
    dep_line, dev_step, init_args, insert_after_deps, join_lines, relative_path, split_package, test_args,
    write_dep_lines, DepSource, DevEvent, DevState, TestStatus, TestTally,
};
use viontin::env::Environment;
use viontin::paths::{extension, format_location, normalize, relative, stem, FileInfo};
use viontin::project::{extract_exports, shows_module, ExportKind};
use viontin::scaffold::{
    domain_files, mod_file_update, mod_has_entry, to_kebab, to_pascal, to_snake, MakeScaffoldCommand,
    ScaffoldKind, ScaffoldType,
};

fn lines(v: &[&str]) -> Vec<String> {
    v.iter().map(|s| s.to_string()).collect()
}

#[test]
fn path_normalization() {
    assert_eq!(normalize("a/./b/../c"), "a/c");
    assert_eq!(normalize("/x/../y"), "/y");
    assert_eq!(normalize("../a"), "a");
    assert_eq!(relative("/a/b/c", "/a"), Some("b/c".to_string()));
    assert_eq!(relative("/a/x", "/a/b"), Some("../x".to_string()));
    assert_eq!(relative("/a/b", "/a/b/c/d"), Some("../..".to_string()));
    assert_eq!(relative("/a/x", "/a/b/c"), Some("../../x".to_string()));
    assert_eq!(relative("/a/b", "/a/b"), Some(".".to_string()));
    assert_eq!(normalize("/a/../../b"), "/b");
    assert_eq!(format_location("src/a.rs", 3, 9), "src/a.rs:3:9");
    assert_eq!(extension("dir/File.TXT"), Some("txt".to_string()));
    assert_eq!(extension("dir/noext"), None);
    assert_eq!(stem("dir/file.tar.gz"), Some("file.tar".to_string()));
    let info = FileInfo::from_metadata("docs/Readme.MD", 12, None, false);
    assert_eq!(info.name, "Readme");
    assert_eq!(info.extension, "md");
    assert_eq!(info.size, 12);
}

#[test]
fn project_exports() {
    let src = "pub struct User;\npub fn make() {}\npub enum Kind {}\npub trait Repo {}\nimpl Command for Greet {}\nfn private() {}\n";
    let ex = extract_exports(src);
    let kinds: Vec<ExportKind> = ex.iter().map(|e| e.kind.clone()).collect();
    let names: Vec<String> = ex.iter().map(|e| e.name.clone()).collect();
    assert_eq!(
        kinds,
        vec![ExportKind::Struct, ExportKind::Function, ExportKind::Enum, ExportKind::Trait, ExportKind::Command]
    );
    assert_eq!(names, vec!["User", "make", "Kind", "Repo", "Greet"]);
    assert!(shows_module(1, true));
    assert!(shows_module(0, false));
    assert!(!shows_module(0, true));
}

#[test]
fn case_conversions() {
    assert_eq!(to_pascal("user_profile-card item"), "UserProfileCardItem");
    assert_eq!(to_snake("UserProfile"), "user_profile");
    assert_eq!(to_snake("my-thing here"), "my_thing_here");
    assert_eq!(to_kebab("UserProfile"), "user-profile");
}

#[test]
fn scaffold_plans() {
    let cmd = MakeScaffoldCommand { scaffold: ScaffoldType::of(ScaffoldKind::Model) };
    assert!(cmd.signature().starts_with("make:model"));
    let plan = cmd.plan("blog_post");
    assert_eq!(plan.pascal, "BlogPost");
    assert_eq!(plan.snake, "blog_post");
    assert_eq!(plan.target_dir, "src/models");
    assert_eq!(plan.file_name, "blog_post.rs");
    assert!(plan.content.contains("pub struct BlogPost"));
    assert!(plan.register_in_mod);
    let module = MakeScaffoldCommand { scaffold: ScaffoldType::of(ScaffoldKind::Module) }.plan("Billing");
    assert_eq!(module.target_dir, "src/billing");
    assert_eq!(module.file_name, "mod.rs");
}

#[test]
fn mod_file_updates() {
    assert!(mod_has_entry("pub mod user;\npub mod post;\n", "post"));
    assert!(!mod_has_entry("pub mod user;\n", "post"));
    assert_eq!(mod_file_update(None, "user"), Some("pub mod user;\n".to_string()));
    assert_eq!(mod_file_update(Some("pub mod user;\n"), "user"), None);
    let files = domain_files("Billing", "billing");
    assert!(files.iter().any(|(name, _)| name == "mod.rs"));
}

#[test]
fn architecture_parsing() {
    let content = "Domain::new(\"orders\")\n    .allows(&[\"billing\", \"users\"])\n";
    assert_eq!(parse_domain_allows(content), vec!["billing".to_string(), "users".to_string()]);
    assert_eq!(parse_use_path("use billing::Invoice;"), Some("billing::Invoice".to_string()));
    assert_eq!(parse_use_path("use self::x;"), None);
    assert_eq!(parse_use_path("pub fn x() {}"), None);
    let names = sub_file_names(&[("b.rs".to_string(), false), ("dir".to_string(), true), ("a.rs".to_string(), false)]);
    assert_eq!(names, vec!["a.rs".to_string(), "b.rs".to_string(), "dir/".to_string()]);
}

#[test]
fn dependency_lines() {
    assert_eq!(split_package("serde@1.0"), ("serde".to_string(), Some("1.0".to_string())));
    assert_eq!(split_package("rand"), ("rand".to_string(), None));
    assert_eq!(dep_line("rand", &DepSource::Version("0.8".to_string())), "rand = \"^0.8\"");
    assert_eq!(dep_line("rand", &DepSource::Any), "rand = \"*\"");
    assert_eq!(dep_line("x", &DepSource::Git("https://g/x".to_string())), "x = { git = \"https://g/x\" }");
    assert_eq!(dep_line("x", &DepSource::Path("../x".to_string())), "x = { path = \"../x\" }");
    assert_eq!(
        dep_line("viontin", &DepSource::Local("../v".to_string(), vec!["web".to_string(), "db".to_string()])),
        "viontin = { path = \"../v\", features = [\"web\", \"db\"] }"
    );
}

#[test]
fn cargo_toml_edits() {
    let toml = lines(&["[package]", "name = \"app\"", "", "[dependencies]", "serde = \"1\"", "", "[dev]"]);
    let out = insert_after_deps(&toml, "rand = \"*\"");
    assert_eq!(
        out,
        lines(&["[package]", "name = \"app\"", "", "[dependencies]", "serde = \"1\"", "rand = \"*\"", "", "", "[dev]"])
    );
    let bare = lines(&["[package]"]);
    assert_eq!(insert_after_deps(&bare, "rand = \"*\""), lines(&["[package]", "rand = \"*\"", ""]));
    let (replaced, existed) = write_dep_lines(&toml, "serde = \"2\"", "serde");
    assert!(existed);
    assert_eq!(replaced[4], "serde = \"2\"");
    assert_eq!(join_lines(&lines(&["a", "b"])), "a\nb");
    assert_eq!(relative_path("/p/app", "/p/fw/core"), "../fw/core");
}

#[test]
fn cargo_arguments() {
    assert_eq!(init_args(true, Some("demo")), lines(&["init", "--lib", "--name", "demo"]));
    assert_eq!(init_args(false, None), lines(&["init"]));
    assert_eq!(test_args(true, Some("auth")), lines(&["test", "--no-run", "--", "auth"]));
    assert_eq!(test_args(false, None), lines(&["test"]));
}

#[test]
fn test_output_tally() {
    let mut t = TestTally::new();
    for l in [
        "running 3 tests",
        "test auth::login ... ok",
        "test cache::expiry ... FAILED",
        "test slow ... ignored",
        "error: test failed",
    ] {
        t.feed(l);
    }
    assert_eq!(t.count(TestStatus::Passed), 1);
    assert_eq!(t.count(TestStatus::Failed), 1);
    assert_eq!(t.count(TestStatus::Skipped), 1);
    assert_eq!(t.results[0].0, "auth");
    assert_eq!(t.results[0].1, "login");
    assert_eq!(t.results[2].0, "test");
    assert!(t.build_failed);
    assert_eq!(t.exit_code(), ExitCode::Failure);
    let mut ok = TestTally::new();
    ok.feed("test a ... ok");
    assert_eq!(ok.exit_code(), ExitCode::Success);
}

#[test]
fn dev_loop_steps() {
    let s = dev_step(DevState::Running, DevEvent::Changed("src/main.rs".to_string()));
    assert!(s.kill && s.drain);
    assert_eq!(s.next, Ok(DevState::Start));
    assert!(matches!(&s.messages[1], Say::Info(m) if m == "[change] src/main.rs modified, restarting..."));
    let e = dev_step(DevState::Running, DevEvent::Exited(Some(101)));
    assert!(matches!(&e.messages[0], Say::Error(m) if m == "Process exited with code Some(101)"));
    assert_eq!(e.next, Ok(DevState::Idle));
    let ok = dev_step(DevState::Running, DevEvent::Exited(Some(0)));
    assert_eq!(ok.messages.len(), 1);
    let f = dev_step(DevState::Start, DevEvent::SpawnFailed("no cargo".to_string()));
    assert_eq!(f.next, Err(ExitCode::Failure));
    assert_eq!(dev_step(DevState::Idle, DevEvent::Quiet).next, Ok(DevState::Idle));
    assert_eq!(dev_step(DevState::Idle, DevEvent::Disconnected).next, Err(ExitCode::Failure));
}

#[test]
fn output_lines_and_log() {
    let plain = Output::new(false);
    assert_eq!(plain.info_line("hi"), "  ℹ hi");
    assert_eq!(plain.listing_line("item"), "  • item");
    assert_eq!(plain.task_start("build"), "  ➤ build ... ");
    assert_eq!(plain.task_end(&Ok("done".to_string())), "✔ done");
    assert_eq!(plain.task_end(&Err("bad".to_string())), "✘ bad");
    let coloured = Output::new(true);
    assert_eq!(coloured.success_line("ok"), "  \x1b[32m✔\x1b[0m ok");
    assert!(!Output::from_env(true, false, false, &Environment::Testing).supports_ansi());
    assert!(Output::from_env(true, false, false, &Environment::Local).supports_ansi());
    assert!(!Output::from_env(true, true, false, &Environment::Local).supports_ansi());
    let log = Log::new(&plain, Level::Warning);
    assert_eq!(log.name(), "output");
    assert!(log.is_enabled_for(Level::Error));
    assert!(!log.is_enabled_for(Level::Info));
    let err = LogEntry { level: Level::Critical, message: "down".to_string() };
    assert_eq!(log.write(&err), Some((Stream::Stderr, "  ✘ down".to_string())));
    let info = LogEntry { level: Level::Info, message: "fyi".to_string() };
    assert_eq!(log.write(&info), None);
}

#[test]
fn spinner_and_progress() {
    let plain = Output::new(false);
    let mut s = plain.spinner();
    assert_eq!(s.start("Compiling"), Some("  Compiling ... ".to_string()));
    assert_eq!(s.ok_text("done"), "done");
    assert_eq!(s.fail_text("oops"), "FAILED: oops");
    let coloured = Output::new(true);
    let mut a = coloured.spinner();
    assert_eq!(a.start("Working"), None);
    assert_eq!(a.frame_text(11), "\r  ⠙ Working");
    assert_eq!(a.ok_text("fine"), "\r  \x1b[32m✔\x1b[0m Working \x1b[90mfine\x1b[0m");
    let mut p = coloured.progress_bar(10);
    p.advance(3);
    p.set(5);
    assert_eq!(p.current(), 5);
    let line = p.bar_line(50, 15, 7).unwrap();
    assert!(line.starts_with("\r  \x1b[34m▐\x1b[0m ["));
    assert!(line.ends_with("] 50% (5/10)     7s"));
    assert_eq!(plain.progress_bar(3).bar_line(0, 0, 0), None);
}
