//! Version-control operations around a caller-supplied command runner.
//!
//! The repository is an outside, shared, mutable resource, so nothing can
//! be promised about what a command returns.  What is verified here is the
//! interpretation layer: which arguments each operation passes to the
//! runner, and how its raw output is turned into a result — trimming,
//! truncation to a short identifier, and the mapping of launch failures and
//! unsuccessful exits onto this module's errors.

use vstd::prelude::*;

use crate::text::{trim_of, trimmed_str};

verus! {

/// One invocation of the version-control tool: its argument list.  The
/// runner executes the tool with these arguments in the repository root.
pub struct GitCall {
    /// Arguments handed to the tool, program name excluded.
    pub args: Vec<String>,
}

/// What came back from running the tool.
pub struct RunOutput {
    /// The command could be started at all.
    pub launched: bool,
    /// The command exited successfully.  Meaningless unless `launched`.
    pub success: bool,
    /// The command's captured standard output.
    pub output: String,
}

/// Errors from version-control operations.
#[derive(Debug, Clone, PartialEq)]
pub enum Error {
    /// The tool could not be started; carries a description.
    Exec(String),
    /// The given path is not inside a repository.
    NotARepo(String),
    /// The tool ran and reported failure; carries the failed invocation.
    Failed(String),
}

impl Error {
    /// A short description of the error.
    pub fn describe(&self) -> (r: String)
        ensures
            r@.len() > 0,
    {
        let r = match self {
            Error::Exec(m) => String::from_str("failed to execute: ").concat(m.as_str()),
            Error::NotARepo(p) => String::from_str("not a repository (searched from ").concat(
                p.as_str(),
            ).concat(")"),
            Error::Failed(m) => String::from_str("command failed: ").concat(m.as_str()),
        };
        proof {
            reveal_strlit("failed to execute: ");
            reveal_strlit("not a repository (searched from ");
            reveal_strlit("command failed: ");
        }
        r
    }
}

/// The argument views of a call.
pub open spec fn args_view(c: GitCall) -> Seq<Seq<char>> {
    c.args@.map_values(|s: String| s@)
}

/// A repository handle: its root directory and the runner that executes
/// the version-control tool there.
pub struct Git<F> {
    /// The repository root.
    pub root: String,
    /// Runs the tool with a [`GitCall`]'s arguments in the root directory.
    pub runner: F,
}

impl<F: Fn(GitCall) -> RunOutput> Git<F> {
    /// The runner accepts every call.
    pub open spec fn runner_total(self) -> bool {
        forall|c: GitCall| #[trigger] call_requires(self.runner, (c,))
    }

    /// Some run of the given arguments through this handle's runner could
    /// return `o`.
    pub open spec fn ran(self, argv: Seq<Seq<char>>, o: RunOutput) -> bool {
        exists|c: GitCall|
            #[trigger] call_ensures(self.runner, (c,), o) && args_view(c) == argv
    }

    /// A handle over the given root and runner.
    pub fn new(root: String, runner: F) -> (g: Git<F>)
        ensures
            g.root == root,
            g.runner == runner,
    {
        Git { root, runner }
    }

    /// The repository root path.
    pub fn root(&self) -> (r: &str)
        ensures
            r@ == self.root@,
    {
        self.root.as_str()
    }

    /// Runs one invocation through the runner.
    fn run(&self, args: Vec<String>) -> (o: RunOutput)
        requires
            self.runner_total(),
        ensures
            call_ensures(self.runner, (GitCall { args },), o),
    {
        (self.runner)(GitCall { args })
    }

    /// Whether a branch or other ref exists: `rev-parse --verify` ran and
    /// succeeded.
    pub fn ref_exists(&self, refname: &str) -> (r: bool)
        requires
            self.runner_total(),
        ensures
            exists|o: RunOutput|
                self.ran(seq![("rev-parse")@, ("--verify")@, refname@], o) && r == (o.launched
                    && o.success),
    {
        let mut args: Vec<String> = Vec::new();
        args.push(String::from_str("rev-parse"));
        args.push(String::from_str("--verify"));
        args.push(String::from_str(refname));
        let ghost call = GitCall { args };
        proof {
            assert(args_view(call) =~= seq![("rev-parse")@, ("--verify")@, refname@]);
        }
        let o = self.run(args);
        let r = o.launched && o.success;
        proof {
            assert(self.ran(seq![("rev-parse")@, ("--verify")@, refname@], o));
        }
        r
    }

    /// Runs an invocation that produces no output of interest, mapping a
    /// launch failure to [`Error::Exec`] and an unsuccessful exit to
    /// [`Error::Failed`].
    fn run_unit(&self, what: &str, args: Vec<String>) -> (r: Result<(), Error>)
        requires
            self.runner_total(),
        ensures
            exists|o: RunOutput|
                self.ran(args@.map_values(|s: String| s@), o) && match r {
                    Ok(_) => o.launched && o.success,
                    Err(Error::Exec(_)) => !o.launched,
                    Err(Error::Failed(_)) => o.launched && !o.success,
                    Err(_) => false,
                },
    {
        let ghost a0 = args@;
        let o = self.run(args);
        proof {
            assert(self.ran(a0.map_values(|s: String| s@), o));
        }
        if !o.launched {
            Err(Error::Exec(String::from_str(what)))
        } else if !o.success {
            Err(Error::Failed(String::from_str(what)))
        } else {
            Ok(())
        }
    }

    /// Runs an invocation and captures its raw standard output, with the
    /// same error mapping as [`Git::run_unit`].
    fn run_capture(&self, what: &str, args: Vec<String>) -> (r: Result<String, Error>)
        requires
            self.runner_total(),
        ensures
            exists|o: RunOutput|
                self.ran(args@.map_values(|s: String| s@), o) && match r {
                    Ok(out) => o.launched && o.success && out@ == o.output@,
                    Err(Error::Exec(_)) => !o.launched,
                    Err(Error::Failed(_)) => o.launched && !o.success,
                    Err(_) => false,
                },
    {
        let ghost a0 = args@;
        let o = self.run(args);
        proof {
            assert(self.ran(a0.map_values(|s: String| s@), o));
        }
        if !o.launched {
            Err(Error::Exec(String::from_str(what)))
        } else if !o.success {
            Err(Error::Failed(String::from_str(what)))
        } else {
            let out = o.output;
            proof {
                assert(out == o.output);
            }
            Ok(out)
        }
    }

    /// The merge-base of two refs: `merge-base` with both refs, its output
    /// trimmed of surrounding blank space.
    pub fn merge_base(&self, ref1: &str, ref2: &str) -> (r: Result<String, Error>)
        requires
            self.runner_total(),
        ensures
            exists|o: RunOutput|
                self.ran(seq![("merge-base")@, ref1@, ref2@], o) && match r {
                    Ok(h) => o.launched && o.success && h@ == trim_of(o.output@),
                    Err(Error::Exec(_)) => !o.launched,
                    Err(Error::Failed(_)) => o.launched && !o.success,
                    Err(_) => false,
                },
    {
        let mut args: Vec<String> = Vec::new();
        args.push(String::from_str("merge-base"));
        args.push(String::from_str(ref1));
        args.push(String::from_str(ref2));
        let ghost call = GitCall { args };
        proof {
            assert(args_view(call) =~= seq![("merge-base")@, ref1@, ref2@]);
        }
        let ghost argv = seq![("merge-base")@, ref1@, ref2@];
        match self.run_capture("merge-base", args) {
            Ok(raw) => {
                let ghost o = choose|o: RunOutput|
                    self.ran(argv, o) && o.launched && o.success && raw@ == o.output@;
                let t = trimmed_str(raw.as_str());
                proof {
                    assert(t@ == trim_of(o.output@));
                }
                Ok(t)
            },
            Err(e) => Err(e),
        }
    }

    /// Checks out a branch.
    pub fn checkout(&self, branch: &str) -> (r: Result<(), Error>)
        requires
            self.runner_total(),
        ensures
            exists|o: RunOutput|
                self.ran(seq![("checkout")@, branch@], o) && match r {
                    Ok(_) => o.launched && o.success,
                    Err(Error::Exec(_)) => !o.launched,
                    Err(Error::Failed(_)) => o.launched && !o.success,
                    Err(_) => false,
                },
    {
        let mut args: Vec<String> = Vec::new();
        args.push(String::from_str("checkout"));
        args.push(String::from_str(branch));
        let ghost call = GitCall { args };
        proof {
            assert(args_view(call) =~= seq![("checkout")@, branch@]);
        }
        self.run_unit("checkout", args)
    }

    /// Creates a branch at the given start point and checks it out.
    pub fn checkout_new_branch(&self, branch: &str, start: &str) -> (r: Result<(), Error>)
        requires
            self.runner_total(),
        ensures
            exists|o: RunOutput|
                self.ran(seq![("checkout")@, ("-b")@, branch@, start@], o) && match r {
                    Ok(_) => o.launched && o.success,
                    Err(Error::Exec(_)) => !o.launched,
                    Err(Error::Failed(_)) => o.launched && !o.success,
                    Err(_) => false,
                },
    {
        let mut args: Vec<String> = Vec::new();
        args.push(String::from_str("checkout"));
        args.push(String::from_str("-b"));
        args.push(String::from_str(branch));
        args.push(String::from_str(start));
        let ghost call = GitCall { args };
        proof {
            assert(args_view(call) =~= seq![("checkout")@, ("-b")@, branch@, start@]);
        }
        self.run_unit("checkout -b", args)
    }

    /// The text difference between two refs: `diff` over the range
    /// `from..to`, output passed through untouched.
    pub fn diff(&self, from: &str, to: &str) -> (r: Result<String, Error>)
        requires
            self.runner_total(),
        ensures
            exists|o: RunOutput|
                self.ran(seq![("diff")@, from@ + ("..")@ + to@], o) && match r {
                    Ok(d) => o.launched && o.success && d@ == o.output@,
                    Err(Error::Exec(_)) => !o.launched,
                    Err(Error::Failed(_)) => o.launched && !o.success,
                    Err(_) => false,
                },
    {
        let range = String::from_str(from).concat("..").concat(to);
        let mut args: Vec<String> = Vec::new();
        args.push(String::from_str("diff"));
        args.push(range);
        let ghost call = GitCall { args };
        proof {
            assert(args_view(call) =~= seq![("diff")@, from@ + ("..")@ + to@]);
        }
        self.run_capture("diff", args)
    }

    /// Checks out the given paths from a ref into the working tree.
    pub fn checkout_files(&self, refname: &str, pathspec: &str) -> (r: Result<(), Error>)
        requires
            self.runner_total(),
        ensures
            exists|o: RunOutput|
                self.ran(seq![("checkout")@, refname@, ("--")@, pathspec@], o) && match r {
                    Ok(_) => o.launched && o.success,
                    Err(Error::Exec(_)) => !o.launched,
                    Err(Error::Failed(_)) => o.launched && !o.success,
                    Err(_) => false,
                },
    {
        let mut args: Vec<String> = Vec::new();
        args.push(String::from_str("checkout"));
        args.push(String::from_str(refname));
        args.push(String::from_str("--"));
        args.push(String::from_str(pathspec));
        let ghost call = GitCall { args };
        proof {
            assert(args_view(call) =~= seq![("checkout")@, refname@, ("--")@, pathspec@]);
        }
        self.run_unit("checkout --", args)
    }

    /// Stages every change in the working tree.
    pub fn add_all(&self) -> (r: Result<(), Error>)
        requires
            self.runner_total(),
        ensures
            exists|o: RunOutput|
                self.ran(seq![("add")@, ("-A")@], o) && match r {
                    Ok(_) => o.launched && o.success,
                    Err(Error::Exec(_)) => !o.launched,
                    Err(Error::Failed(_)) => o.launched && !o.success,
                    Err(_) => false,
                },
    {
        let mut args: Vec<String> = Vec::new();
        args.push(String::from_str("add"));
        args.push(String::from_str("-A"));
        let ghost call = GitCall { args };
        proof {
            assert(args_view(call) =~= seq![("add")@, ("-A")@]);
        }
        self.run_unit("add -A", args)
    }

    /// The short identifier of the current head: `rev-parse HEAD`, trimmed,
    /// truncated to at most eight characters.
    pub fn head_short(&self) -> (r: Result<String, Error>)
        requires
            self.runner_total(),
        ensures
            exists|o: RunOutput|
                self.ran(seq![("rev-parse")@, ("HEAD")@], o) && match r {
                    Ok(h) => {
                        let t = trim_of(o.output@);
                        o.launched && o.success && h@ == t.subrange(
                            0,
                            if t.len() < 8 {
                                t.len() as int
                            } else {
                                8
                            },
                        )
                    },
                    Err(Error::Exec(_)) => !o.launched,
                    Err(Error::Failed(_)) => o.launched && !o.success,
                    Err(_) => false,
                },
            r matches Ok(h) ==> h@.len() <= 8,
    {
        let mut args: Vec<String> = Vec::new();
        args.push(String::from_str("rev-parse"));
        args.push(String::from_str("HEAD"));
        let ghost call = GitCall { args };
        proof {
            assert(args_view(call) =~= seq![("rev-parse")@, ("HEAD")@]);
        }
        let ghost argv = seq![("rev-parse")@, ("HEAD")@];
        match self.run_capture("rev-parse", args) {
            Ok(raw) => {
                let ghost o = choose|o: RunOutput|
                    self.ran(argv, o) && o.launched && o.success && raw@ == o.output@;
                let t = trimmed_str(raw.as_str());
                let tc = crate::text::chars_of(t.as_str());
                let k: usize = if tc.len() < 8 {
                    tc.len()
                } else {
                    8
                };
                let short = crate::text::copy_range(&tc, 0, k);
                let h = crate::text::string_of(&short);
                proof {
                    let tv = trim_of(o.output@);
                    assert(t@ == tv);
                    assert(h@ == tv.subrange(
                        0,
                        if tv.len() < 8 {
                            tv.len() as int
                        } else {
                            8
                        },
                    ));
                }
                Ok(h)
            },
            Err(e) => Err(e),
        }
    }

    /// Stages all changes and creates a commit with the given message,
    /// returning the new head's short identifier: `add -A`, then
    /// `commit -m`, then the head read back as in [`Git::head_short`].
    pub fn commit(&self, message: &str) -> (r: Result<String, Error>)
        requires
            self.runner_total(),
        ensures
            match r {
                Ok(h) => {
                    &&& (exists|c: GitCall, o: RunOutput|
                        #[trigger] call_ensures(self.runner, (c,), o) && args_view(c)
                            == seq![("add")@, ("-A")@] && o.launched && o.success)
                    &&& (exists|c: GitCall, o: RunOutput|
                        #[trigger] call_ensures(self.runner, (c,), o) && args_view(c)
                            == seq![("commit")@, ("-m")@, message@] && o.launched && o.success)
                    &&& (exists|c: GitCall, o: RunOutput|
                        #[trigger] call_ensures(self.runner, (c,), o) && args_view(c)
                            == seq![("rev-parse")@, ("HEAD")@] && o.launched && o.success && h@
                            == trim_of(o.output@).subrange(
                            0,
                            if trim_of(o.output@).len() < 8 {
                                trim_of(o.output@).len() as int
                            } else {
                                8
                            },
                        ))
                    &&& h@.len() <= 8
                },
                Err(Error::Exec(_)) => exists|c: GitCall, o: RunOutput|
                    #[trigger] call_ensures(self.runner, (c,), o) && !o.launched && (args_view(c)
                        == seq![("add")@, ("-A")@] || args_view(c) == seq![
                        ("commit")@,
                        ("-m")@,
                        message@,
                    ] || args_view(c) == seq![("rev-parse")@, ("HEAD")@]),
                Err(Error::Failed(_)) => exists|c: GitCall, o: RunOutput|
                    #[trigger] call_ensures(self.runner, (c,), o) && o.launched && !o.success && (
                    args_view(c) == seq![("add")@, ("-A")@] || args_view(c) == seq![
                        ("commit")@,
                        ("-m")@,
                        message@,
                    ] || args_view(c) == seq![("rev-parse")@, ("HEAD")@]),
                Err(_) => false,
            },
    {
        match self.add_all() {
            Ok(_) => {},
            Err(e) => {
                return Err(e);
            },
        }
        let mut args: Vec<String> = Vec::new();
        args.push(String::from_str("commit"));
        args.push(String::from_str("-m"));
        args.push(String::from_str(message));
        let ghost call = GitCall { args };
        proof {
            assert(args_view(call) =~= seq![("commit")@, ("-m")@, message@]);
        }
        match self.run_unit("commit", args) {
            Ok(_) => {},
            Err(e) => {
                return Err(e);
            },
        }
        self.head_short()
    }
}

} // verus!