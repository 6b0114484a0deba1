//! The branch on which a workspace stands, read from what git printed.

use crate::events::{normalized, normalized_line, normalized_text, utf8_lossy};
use vstd::prelude::*;
use vstd::string::*;

verus! {

/// The arguments with which git is asked for the branch of a workspace.
pub open spec fn branch_query_of(workspace_path: Seq<char>) -> Seq<Seq<char>> {
    seq!["-C"@, workspace_path, "rev-parse"@, "--abbrev-ref"@, "HEAD"@]
}

/// The arguments with which git is asked for the branch of the workspace.
pub fn branch_query(workspace_path: String) -> (arguments: Vec<String>)
    ensures
        arguments.deep_view() == branch_query_of(workspace_path@),
{
    let mut arguments: Vec<String> = Vec::new();
    arguments.push(String::from_str("-C"));
    arguments.push(workspace_path);
    arguments.push(String::from_str("rev-parse"));
    arguments.push(String::from_str("--abbrev-ref"));
    arguments.push(String::from_str("HEAD"));
    assert(arguments.deep_view() =~= branch_query_of(workspace_path@));
    arguments
}

/// The branch that the printed text names: the text without the
/// whitespace around it, unless that is empty or is `HEAD`, which git
/// prints where the workspace stands on no branch.
pub open spec fn branch_of(printed: Seq<char>) -> Option<Seq<char>> {
    match normalized(printed) {
        Some(branch) => if branch == "HEAD"@ {
            None
        } else {
            Some(branch)
        },
        None => None,
    }
}

/// Drops the name `HEAD`, which names no branch.
fn unless_head(name: Option<String>) -> (branch: Option<String>)
    ensures
        branch.deep_view() == match name.deep_view() {
            Some(text) => if text == "HEAD"@ {
                None
            } else {
                Some(text)
            },
            None => None,
        },
{
    match name {
        Some(text) => {
            let head = String::from_str("HEAD");
            if text == head {
                None
            } else {
                Some(text)
            }
        },
        None => None,
    }
}

/// The branch that the printed text names, if it names one.
pub fn branch_from_text(printed: &str) -> (branch: Option<String>)
    ensures
        branch.deep_view() == branch_of(printed@),
{
    unless_head(normalized_text(printed))
}

/// The branch of a workspace, from how git ended and what it printed.
/// Where git failed there is no branch.
pub fn current_branch(success: bool, printed: &[u8]) -> (branch: Option<String>)
    ensures
        branch.deep_view() == if success {
            branch_of(utf8_lossy(printed@))
        } else {
            None
        },
{
    if !success {
        return None;
    }
    unless_head(normalized_line(printed))
}

} // verus!
