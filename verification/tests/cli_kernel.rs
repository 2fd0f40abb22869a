use viontin::cli::exit::ExitCode;
use viontin::cli::input::Input;
use viontin::cli::kernel::{Command, Kernel, KernelAction};
use viontin::cli::output::Output;

struct Greet;

impl Command for Greet {
    fn signature(&self) -> &str {
        "greet {name} {--loud}"
    }
    fn description(&self) -> &str {
        "Say hello"
    }
    fn handle(&self, input: &Input, _output: &Output) -> ExitCode {
        if input.argument("name").is_ok() {
            ExitCode::Success
        } else {
            ExitCode::InvalidArgs
        }
    }
}

fn args(v: &[&str]) -> Vec<String> {
    v.iter().map(|s| s.to_string()).collect()
}

#[test]
fn exit_codes_round_trip() {
    for e in [ExitCode::Success, ExitCode::Failure, ExitCode::InvalidArgs, ExitCode::Cancel] {
        assert_eq!(ExitCode::from(e.to_code()), e);
    }
    assert_eq!(ExitCode::Cancel.to_code(), 130);
    assert_eq!(ExitCode::from(7), ExitCode::Failure);
}

#[test]
fn kernel_version_and_help() {
    let k = Kernel::new().name("App").version("1.2.3").register(Greet);
    let out = Output::new(false);
    match k.plan(&args(&["app", "--version"]), &out) {
        KernelAction::Print(lines) => assert_eq!(lines, vec!["App v1.2.3".to_string()]),
        _ => panic!("expected version"),
    }
    match k.plan(&args(&["app"]), &out) {
        KernelAction::Print(lines) => {
            assert_eq!(lines[0], " App v1.2.3");
            assert!(lines.iter().any(|l| l.contains("greet") && l.contains("Say hello")));
        }
        _ => panic!("expected help"),
    }
}

#[test]
fn kernel_runs_and_reports_unknown() {
    let k = Kernel::new().register(Greet);
    let out = Output::new(false);
    match k.plan(&args(&["app", "greet", "Bob"]), &out) {
        KernelAction::Run(i, input) => {
            assert_eq!(input.arguments(), vec!["Bob"]);
            assert_eq!(k.run_command(i, &input, &out), ExitCode::Success);
        }
        _ => panic!("expected run"),
    }
    match k.plan(&args(&["app", "nope"]), &out) {
        KernelAction::NotFound(err, _) => assert_eq!(err, "Command not found: nope"),
        _ => panic!("expected not found"),
    }
    match k.plan(&args(&["app", "greet", "-h"]), &out) {
        KernelAction::Print(lines) => {
            assert_eq!(lines[1], "  Say hello");
            assert!(lines.contains(&"  name (required)".to_string()));
            assert!(lines.contains(&"  --loud (flag)".to_string()));
        }
        _ => panic!("expected command help"),
    }
}

#[test]
fn table_lays_out_columns() {
    let out = Output::new(false);
    let rows = vec![
        vec!["a".to_string(), "bb".to_string()],
        vec!["ccc".to_string(), "d".to_string()],
    ];
    let lines = out.table_lines(rows);
    assert_eq!(lines.len(), 5);
    assert_eq!(lines[0], "+─────+────+");
    assert_eq!(lines[1], "  a   │ bb  ");
    assert_eq!(lines[3], "  ccc │ d   ");
}

#[test]
fn style_wraps_only_with_ansi() {
    assert_eq!(Output::new(true).style("x", "31"), "\x1b[31mx\x1b[0m");
    assert_eq!(Output::new(false).style("x", "31"), "x");
}
