//! The version-control wrapper over scripted runners: which arguments each
//! operation passes, and how raw output is interpreted.

use pravda::git::{Git, GitCall, RunOutput, Error};

/// A runner that echoes the arguments it was called with, joined by `|`.
fn echo_runner(call: GitCall) -> RunOutput {
    RunOutput { launched: true, success: true, output: call.args.join("|") }
}

#[test]
fn root_returns_the_repository_root() {
    let git = Git::new("/work/repo".to_string(), echo_runner);
    assert_eq!(git.root(), "/work/repo");
}

#[test]
fn diff_passes_the_dotted_range() {
    let git = Git::new("/r".to_string(), echo_runner);
    assert_eq!(git.diff("clean", "messy").unwrap(), "diff|clean..messy");
}

#[test]
fn merge_base_passes_both_refs_and_trims() {
    let git = Git::new(
        "/r".to_string(),
        |call: GitCall| {
            assert_eq!(call.args, vec!["merge-base", "messy", "origin/main"]);
            RunOutput { launched: true, success: true, output: "  abc123def456\n".to_string() }
        },
    );
    assert_eq!(git.merge_base("messy", "origin/main").unwrap(), "abc123def456");
}

#[test]
fn head_short_truncates_to_eight_characters() {
    let git = Git::new(
        "/r".to_string(),
        |_call: GitCall| RunOutput {
            launched: true,
            success: true,
            output: "0123456789abcdef\n".to_string(),
        },
    );
    assert_eq!(git.head_short().unwrap(), "01234567");
}

#[test]
fn head_short_keeps_short_output_whole() {
    let git = Git::new(
        "/r".to_string(),
        |_call: GitCall| RunOutput {
            launched: true,
            success: true,
            output: "abc\n".to_string(),
        },
    );
    assert_eq!(git.head_short().unwrap(), "abc");
}

#[test]
fn ref_exists_reflects_the_exit_status() {
    let yes = Git::new("/r".to_string(), |_c: GitCall| RunOutput {
        launched: true,
        success: true,
        output: String::new(),
    });
    assert!(yes.ref_exists("clean"));
    let no = Git::new("/r".to_string(), |_c: GitCall| RunOutput {
        launched: true,
        success: false,
        output: String::new(),
    });
    assert!(!no.ref_exists("clean"));
}

#[test]
fn launch_failure_is_an_exec_error() {
    let git = Git::new("/r".to_string(), |_c: GitCall| RunOutput {
        launched: false,
        success: false,
        output: String::new(),
    });
    assert!(matches!(git.checkout("clean"), Err(Error::Exec(_))));
}

#[test]
fn unsuccessful_exit_is_a_failed_error() {
    let git = Git::new("/r".to_string(), |_c: GitCall| RunOutput {
        launched: true,
        success: false,
        output: String::new(),
    });
    assert!(matches!(git.add_all(), Err(Error::Failed(_))));
}

#[test]
fn checkout_new_branch_passes_branch_and_start() {
    let git = Git::new(
        "/r".to_string(),
        |call: GitCall| {
            assert_eq!(call.args, vec!["checkout", "-b", "clean", "base123"]);
            RunOutput { launched: true, success: true, output: String::new() }
        },
    );
    git.checkout_new_branch("clean", "base123").unwrap();
}

#[test]
fn checkout_files_passes_ref_and_pathspec() {
    let git = Git::new(
        "/r".to_string(),
        |call: GitCall| {
            assert_eq!(call.args, vec!["checkout", "messy", "--", "."]);
            RunOutput { launched: true, success: true, output: String::new() }
        },
    );
    git.checkout_files("messy", ".").unwrap();
}

#[test]
fn commit_stages_commits_and_reports_the_short_head() {
    // The runner scripts the three invocations commit() makes in order:
    // stage everything, create the commit, read the head.
    let git = Git::new(
        "/r".to_string(),
        |call: GitCall| {
            let first = call.args[0].clone();
            match first.as_str() {
                "add" => {
                    assert_eq!(call.args, vec!["add", "-A"]);
                    RunOutput { launched: true, success: true, output: String::new() }
                },
                "commit" => {
                    assert_eq!(call.args, vec!["commit", "-m", "a message"]);
                    RunOutput { launched: true, success: true, output: String::new() }
                },
                "rev-parse" => RunOutput {
                    launched: true,
                    success: true,
                    output: "fedcba9876543210\n".to_string(),
                },
                other => panic!("unexpected invocation {other}"),
            }
        },
    );
    assert_eq!(git.commit("a message").unwrap(), "fedcba98");
}

#[test]
fn errors_describe_themselves() {
    assert!(!Error::Exec("x".to_string()).describe().is_empty());
    assert!(!Error::NotARepo("p".to_string()).describe().is_empty());
    assert!(!Error::Failed("c".to_string()).describe().is_empty());
}

#[test]
fn commit_reports_failure_of_the_staging_step() {
    // The staging invocation exits unsuccessfully; commit maps it to a
    // Failed error and never reaches the commit invocation.
    let git = Git::new(
        "/r".to_string(),
        |call: GitCall| {
            assert_eq!(call.args[0], "add", "no later invocation may run");
            RunOutput { launched: true, success: false, output: String::new() }
        },
    );
    assert!(matches!(git.commit("msg"), Err(Error::Failed(_))));
}

#[test]
fn commit_reports_a_commit_invocation_that_cannot_launch() {
    let git = Git::new(
        "/r".to_string(),
        |call: GitCall| {
            let launched = call.args[0] != "commit";
            RunOutput { launched, success: launched, output: String::new() }
        },
    );
    assert!(matches!(git.commit("msg"), Err(Error::Exec(_))));
}
