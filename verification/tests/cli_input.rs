use viontin::cli::command::Signature;
use viontin::cli::input::Input;

fn parse(args: &[&str], sig: &str) -> Input {
    let raw: Vec<String> = args.iter().map(|s| s.to_string()).collect();
    Input::parse(&raw, &Signature::parse(sig))
}

#[test]
fn test_arguments() {
    let input = parse(&["Alice", "Bob"], "greet {name} {other}");
    let args = input.arguments();
    assert_eq!(args, vec!["Alice", "Bob"]);
}

#[test]
fn test_arguments_empty() {
    let input = parse(&[], "cmd");
    let args: Vec<&str> = input.arguments();
    assert!(args.is_empty());
}

#[test]
fn test_has_option_true() {
    let input = parse(&["cmd", "--name=value"], "cmd {--name=}");
    assert!(input.has_option("name"));
}

#[test]
fn test_has_option_false() {
    let input = parse(&["cmd"], "cmd {--name=}");
    assert!(!input.has_option("name"));
}

#[test]
fn signature_parses_arguments_and_options() {
    let sig = Signature::parse("make:component {name} {target?} {--force} {--type=default} {--out=}");
    assert_eq!(sig.name, "make:component");
    assert_eq!(sig.arguments.len(), 2);
    assert_eq!(sig.arguments[0].name, "name");
    assert!(sig.arguments[0].required);
    assert_eq!(sig.arguments[1].name, "target");
    assert!(!sig.arguments[1].required);
    assert_eq!(sig.options.len(), 3);
    assert_eq!(sig.options[0].name, "force");
    assert!(!sig.options[0].has_value);
    assert_eq!(sig.options[1].name, "type");
    assert_eq!(sig.options[1].default.as_deref(), Some("default"));
    assert_eq!(sig.options[2].name, "out");
    assert!(sig.options[2].has_value);
    assert_eq!(sig.options[2].default, None);
}

#[test]
fn signature_double_equals_default_is_none() {
    let sig = Signature::parse("cmd {--x==}");
    assert_eq!(sig.options[0].name, "x");
    assert_eq!(sig.options[0].default, None);
}

#[test]
fn input_reads_option_forms_and_flags() {
    let input = parse(
        &["file.txt", "--type", "big", "--force", "--level=3", "--unknown"],
        "build {target} {--type=} {--force} {--level=1}",
    );
    assert_eq!(input.arguments(), vec!["file.txt"]);
    assert_eq!(input.option("type").unwrap(), Some("big".to_string()));
    assert_eq!(input.option("level").unwrap(), Some("3".to_string()));
    assert!(input.has_flag("force"));
    assert!(input.has_flag("unknown"));
    assert!(!input.has_flag("type"));
    assert_eq!(input.argument("target").unwrap(), "file.txt");
    assert_eq!(input.argument("nope").unwrap_err(), "Unknown argument: nope");
}

#[test]
fn input_uses_default_when_value_missing() {
    let input = parse(&["--level"], "build {target} {--level=7}");
    assert_eq!(input.option("level").unwrap(), Some("7".to_string()));
    assert_eq!(input.argument("target").unwrap_err(), "Missing required argument: target");
    assert_eq!(input.option_or("missing", "dflt".to_string()), "dflt");
    assert_eq!(input.option_or_else("level", "x".to_string()).unwrap(), "7");
}

#[test]
fn input_later_option_replaces_earlier() {
    let input = parse(&["--a=1", "--a=2"], "cmd {--a=}");
    assert_eq!(input.option("a").unwrap(), Some("2".to_string()));
}
