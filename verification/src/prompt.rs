//! Static guidance for authoring a plan document.

use vstd::prelude::*;

verus! {

/// The guidance text that instructs a model collaborator to write a plan
/// document: the branch fields, the commit blocks, and the rule that the
/// history list is left for the controller to fill.
pub fn prompt() -> (r: String)
    ensures
        r@.len() > 0,
    {
    let r = String::from_str(
        "# Writing a history reconstruction plan\n\
         \n\
         Examine the repository's messy development branch and propose a\n\
         clean sequence of logical commits.  Write the plan as a document\n\
         with three header fields and one block per commit:\n\
         \n\
         source = \"the branch holding all messy changes\"\n\
         remote = \"the upstream branch the result will be based on\"\n\
         cleaned = \"the new branch to construct\"\n\
         \n\
         [[commit]]\n\
         message = \"the final commit message\"\n\
         hints = \"optional guidance on which changes belong here\"\n\
         \n\
         Order the commit blocks so that each builds on the previous ones:\n\
         foundations first, then features, then cleanups.  Keep each commit\n\
         reviewable on its own.  Do not write a history field: the\n\
         controller appends the execution history itself as it works.\n",
    );
    proof {
        reveal_strlit(
            "# Writing a history reconstruction plan\n\
             \n\
             Examine the repository's messy development branch and propose a\n\
             clean sequence of logical commits.  Write the plan as a document\n\
             with three header fields and one block per commit:\n\
             \n\
             source = \"the branch holding all messy changes\"\n\
             remote = \"the upstream branch the result will be based on\"\n\
             cleaned = \"the new branch to construct\"\n\
             \n\
             [[commit]]\n\
             message = \"the final commit message\"\n\
             hints = \"optional guidance on which changes belong here\"\n\
             \n\
             Order the commit blocks so that each builds on the previous ones:\n\
             foundations first, then features, then cleanups.  Keep each commit\n\
             reviewable on its own.  Do not write a history field: the\n\
             controller appends the execution history itself as it works.\n",
        );
    }
    r
}

} // verus!