//! The verification-command surface: splitting a configured command line
//! into a program and argument list, and merging a command's two output
//! streams for diagnosis.
//!
//! Splitting is on blank space only — no shell quoting semantics.  That is
//! a documented limitation of the command surface, not an accident.

use vstd::prelude::*;

use crate::text::{chars_of, copy_range, is_space, spec_is_space, string_of};

verus! {

/// The length of the leading run of non-space characters.
pub open spec fn token_end(s: Seq<char>) -> int
    decreases s.len(),
{
    if s.len() > 0 && !spec_is_space(s[0]) {
        1 + token_end(s.drop_first())
    } else {
        0
    }
}

/// Characterisation of [`token_end`]: the unique boundary of the leading
/// token.
pub proof fn lemma_token_end_is(s: Seq<char>, k: int)
    requires
        0 <= k <= s.len(),
        forall|i: int| 0 <= i < k ==> !spec_is_space(s[i]),
        k < s.len() ==> spec_is_space(s[k]),
    ensures
        token_end(s) == k,
    decreases s.len(),
{
    if s.len() == 0 {
    } else if k == 0 {
    } else {
        let rest = s.drop_first();
        assert(forall|i: int| 0 <= i < k - 1 ==> rest[i] == s[i + 1]);
        assert(k - 1 < rest.len() ==> rest[k - 1] == s[k]);
        lemma_token_end_is(rest, k - 1);
    }
}

/// The blank-space-separated tokens of a command line: maximal runs of
/// non-space characters, in order.
pub open spec fn split_ws(s: Seq<char>) -> Seq<Seq<char>>
    decreases s.len(),
{
    if s.len() == 0 {
        Seq::empty()
    } else if spec_is_space(s[0]) {
        split_ws(s.drop_first())
    } else {
        let k = token_end(s);
        if 1 <= k <= s.len() {
            seq![s.subrange(0, k)] + split_ws(s.skip(k))
        } else {
            seq![s]
        }
    }
}

/// The token views of a vector of tokens.
pub open spec fn tokens_view(r: Seq<String>) -> Seq<Seq<char>> {
    r.map_values(|t: String| t@)
}

/// Splits a command line on blank space into its tokens.
pub fn split_tokens(command: &str) -> (r: Vec<String>)
    ensures
        tokens_view(r@) == split_ws(command@),
{
    let chars = chars_of(command);
    let n = chars.len();
    let mut acc: Vec<String> = Vec::new();
    let mut i: usize = 0;
    proof {
        assert(command@.skip(0) =~= command@);
        assert(tokens_view(acc@) + split_ws(command@) =~= split_ws(command@));
    }
    while i < n
        invariant
            n == chars@.len(),
            chars@ == command@,
            0 <= i <= n,
            tokens_view(acc@) + split_ws(command@.skip(i as int)) == split_ws(command@),
        decreases n - i,
    {
        let ghost s = command@.skip(i as int);
        if is_space(chars[i]) {
            proof {
                assert(s.drop_first() =~= command@.skip(i as int + 1));
                assert(split_ws(s) == split_ws(command@.skip(i as int + 1)));
            }
            i += 1;
        } else {
            let mut k: usize = i;
            while k < n && !is_space(chars[k])
                invariant
                    i <= k <= n,
                    n == chars@.len(),
                    chars@ == command@,
                    forall|j: int| i <= j < k ==> !spec_is_space(command@[j]),
                decreases n - k,
            {
                k += 1;
            }
            proof {
                assert(forall|j: int| 0 <= j < s.len() ==> s[j] == command@[i + j]);
                lemma_token_end_is(s, k - i as int);
            }
            let tok_chars = copy_range(&chars, i, k);
            let tok = string_of(&tok_chars);
            let ghost acc0 = acc@;
            acc.push(tok);
            proof {
                assert(tokens_view(acc@) =~= tokens_view(acc0).push(tok@));
                assert(tok@ =~= s.subrange(0, k - i as int));
                assert(s.skip(k - i as int) =~= command@.skip(k as int));
                assert(split_ws(s) == seq![tok@] + split_ws(command@.skip(k as int)));
                assert(tokens_view(acc0).push(tok@) + split_ws(command@.skip(k as int))
                    =~= tokens_view(acc0) + split_ws(s));
            }
            i = k;
        }
    }
    proof {
        assert(command@.skip(n as int) =~= Seq::<char>::empty());
        assert(tokens_view(acc@) + split_ws(Seq::<char>::empty()) =~= tokens_view(acc@));
    }
    acc
}

/// A command ready to launch: the program and its arguments.
#[derive(Debug, Clone, PartialEq)]
pub struct CommandPlan {
    /// The program: the command line's first token.
    pub program: String,
    /// The remaining tokens, in order.
    pub args: Vec<String>,
}

/// Splits a configured command line into a program and argument list.
/// Returns `None` exactly when the line holds no token at all.
pub fn split_command(command: &str) -> (r: Option<CommandPlan>)
    ensures
        match r {
            Some(p) => {
                &&& split_ws(command@).len() > 0
                &&& p.program@ == split_ws(command@)[0]
                &&& p.args@.len() == split_ws(command@).len() - 1
                &&& forall|j: int|
                    0 <= j < p.args@.len() ==> p.args@[j]@ == split_ws(command@)[j + 1]
            },
            None => split_ws(command@).len() == 0,
        },
{
    let mut tokens = split_tokens(command);
    if tokens.len() == 0 {
        return None;
    }
    let program = tokens.remove(0);
    proof {
        assert(program@ == split_ws(command@)[0]);
        assert(forall|j: int|
            0 <= j < tokens@.len() ==> tokens@[j] == #[trigger] tokens@.subrange(
                0,
                tokens@.len() as int,
            )[j]);
    }
    Some(CommandPlan { program, args: tokens })
}

/// One verification run's report: whether the command succeeded, and its
/// merged output.
#[derive(Debug, Clone, PartialEq)]
pub struct RunReport {
    /// The command exited successfully.
    pub success: bool,
    /// Both output streams, merged.
    pub output: String,
}

/// Merges a command's two output streams into one text for diagnosis: the
/// standard output, a line break, the standard error.
pub fn combined_output(out: &str, err: &str) -> (r: String)
    ensures
        r@ == out@ + ("\n")@ + err@,
{
    String::from_str(out).concat("\n").concat(err)
}

} // verus!