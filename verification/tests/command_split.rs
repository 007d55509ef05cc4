//! Splitting verification commands and merging command output.

use pravda::command::{combined_output, split_command};

#[test]
fn splits_the_default_build_command() {
    let p = split_command("cargo check --all --workspace").expect("tokens");
    assert_eq!(p.program, "cargo");
    assert_eq!(p.args, vec!["check", "--all", "--workspace"]);
}

#[test]
fn collapses_runs_of_blank_space() {
    let p = split_command("  make \t -j4   test  ").expect("tokens");
    assert_eq!(p.program, "make");
    assert_eq!(p.args, vec!["-j4", "test"]);
}

#[test]
fn single_token_has_no_arguments() {
    let p = split_command("make").expect("tokens");
    assert_eq!(p.program, "make");
    assert!(p.args.is_empty());
}

#[test]
fn no_shell_quoting_semantics() {
    // Splitting is on blank space only: quotes are ordinary characters.
    let p = split_command("sh -c \"make test\"").expect("tokens");
    assert_eq!(p.program, "sh");
    assert_eq!(p.args, vec!["-c", "\"make", "test\""]);
}

#[test]
fn empty_or_blank_command_yields_nothing() {
    assert!(split_command("").is_none());
    assert!(split_command(" \t  ").is_none());
}

#[test]
fn combined_output_merges_both_streams() {
    assert_eq!(combined_output("out text", "err text"), "out text\nerr text");
    assert_eq!(combined_output("", ""), "\n");
}
