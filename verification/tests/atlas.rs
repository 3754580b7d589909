//! The atlas command line.

use hipfire::atlas::{command, Command};

fn ask(args: &[&str]) -> Command {
    command(&args.iter().map(|a| a.to_string()).collect())
}

#[test]
fn subcommands_take_a_path() {
    assert!(matches!(ask(&["atlas", "read", "a.jsonl"]), Command::Read { path } if path == "a.jsonl"));
    assert!(matches!(ask(&["atlas", "count", "b"]), Command::Count { path } if path == "b"));
    assert!(matches!(ask(&["atlas", "head", "c"]), Command::Head { path, rows: None } if path == "c"));
    assert!(matches!(
        ask(&["atlas", "head", "c", "5"]),
        Command::Head { rows: Some(n), .. } if n == "5"
    ));
}

#[test]
fn anything_else_is_help_or_unknown() {
    for h in ["-h", "--help", "help"] {
        assert!(matches!(ask(&["atlas", h]), Command::Help));
    }
    assert!(matches!(ask(&["atlas"]), Command::Missing));
    assert!(matches!(ask(&[]), Command::Missing));
    assert!(matches!(ask(&["atlas", "read"]), Command::Unknown { name } if name == "read"));
    assert!(matches!(ask(&["atlas", "x", "y"]), Command::Unknown { name } if name == "x"));
    assert!(matches!(ask(&["atlas", "count", "a", "b"]), Command::Unknown { name } if name == "count"));
}
