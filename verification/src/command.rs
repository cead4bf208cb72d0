//! The arguments of the command that produces the diff text.

use vstd::prelude::*;
use vstd::string::StringExecFns;
use crate::parser::{split_whitespace, whitespace_tokens};
use crate::text::collect_chars;

verus! {

/// The least width of the terminal at which a session starts in the split view.
pub const START_SPLIT_WIDTH: u16 = 100;

/// What is to be compared: the given commit with its parent, or what is
/// staged, or what `diff_args` says.
pub open spec fn diff_selection(commit: Option<Seq<char>>, staged: bool, diff_args: Seq<char>) -> Seq<
    char,
> {
    match commit {
        Some(commit) => commit + "^.."@ + commit,
        None => if staged {
            "--cached"@
        } else {
            diff_args
        },
    }
}

/// The arguments of the diff command: the fixed ones, then the tokens of the
/// selection.
pub open spec fn command_arguments(selection: Seq<char>) -> Seq<Seq<char>> {
    seq!["diff"@, "--no-prefix"@] + whitespace_tokens(selection)
}

/// What is to be compared.
pub fn diff_arguments(commit: Option<&str>, staged: bool, diff_args: &str) -> (selection: String)
    ensures
        selection@ == diff_selection(commit.deep_view(), staged, diff_args@),
{
    match commit {
        Some(commit) => String::from_str(commit).concat("^..").concat(commit),
        None => if staged {
            String::from_str("--cached")
        } else {
            String::from_str(diff_args)
        },
    }
}

/// The arguments of the diff command for a selection.
pub fn git_arguments(selection: &str) -> (arguments: Vec<String>)
    ensures
        arguments.deep_view() == command_arguments(selection@),
{
    let chars = collect_chars(selection);
    let mut tokens = split_whitespace(chars.as_slice());
    let mut arguments: Vec<String> = Vec::new();
    arguments.push(String::from_str("diff"));
    arguments.push(String::from_str("--no-prefix"));
    arguments.append(&mut tokens);
    arguments
}

/// Does a terminal of the given width start in the split view?
pub fn starts_side_by_side(width: u16) -> (split: bool)
    ensures
        split == (width >= START_SPLIT_WIDTH),
{
    width >= START_SPLIT_WIDTH
}

} // verus!
