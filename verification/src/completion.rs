//! What the installation of shell completions decides: which shell is in
//! use, and what the configuration of `zsh` still lacks.

use vstd::prelude::*;
use crate::preprocess::{lines, lines_view, split_lines};
use crate::text::{chars_of, contains_chars, copy_range, occurs, trim_start, trimmed_start};

verus! {

/// The shells for which there are completions.
#[derive(Debug, Clone, Copy, PartialEq, Eq)]
pub enum Shell {
    Bash,
    Zsh,
    Fish,
}

/// The shell that the value of the variable `SHELL` names: the first of
/// `bash`, `zsh` and `fish` that occurs in it.
pub open spec fn named_shell(shell_var: Seq<char>) -> Option<Shell> {
    if occurs(shell_var, "bash"@) {
        Some(Shell::Bash)
    } else if occurs(shell_var, "zsh"@) {
        Some(Shell::Zsh)
    } else if occurs(shell_var, "fish"@) {
        Some(Shell::Fish)
    } else {
        None
    }
}

/// Whether the line sets `fpath` to hold the directory of the completions:
/// it is neither blank nor a comment, and holds both `fpath` and
/// `~/.zsh/completion`.
pub open spec fn sets_fpath(line: Seq<char>) -> bool {
    let t = trim_start(line);
    t.len() > 0 && t[0] != '#' && occurs(t, "fpath"@) && occurs(t, "~/.zsh/completion"@)
}

/// Whether the text of a `.zshrc` still has to add the directory of the
/// completions to `fpath`: no line of it does.
pub open spec fn lacks_fpath(content: Seq<char>) -> bool {
    forall|i: int| 0 <= i < lines(content).len() ==> !sets_fpath(#[trigger] lines(content)[i])
}

/// Whether the text of a `.zshrc` still has to load `compinit`.
pub open spec fn lacks_compinit(content: Seq<char>) -> bool {
    !occurs(content, "autoload -Uz compinit"@)
}

/// Finds the shell in use from the value of the variable `SHELL`.
pub fn detect_shell(shell_var: &str) -> (r: Option<Shell>)
    ensures
        r == named_shell(shell_var@),
{
    let value = chars_of(shell_var);
    if contains_chars(&value, &chars_of("bash")) {
        Some(Shell::Bash)
    } else if contains_chars(&value, &chars_of("zsh")) {
        Some(Shell::Zsh)
    } else if contains_chars(&value, &chars_of("fish")) {
        Some(Shell::Fish)
    } else {
        None
    }
}

/// Tells whether a line sets `fpath` to hold the directory of the completions.
fn line_sets_fpath(line: &Vec<char>) -> (r: bool)
    ensures
        r == sets_fpath(line@),
{
    let k: usize = trimmed_start(line);
    let t = copy_range(line, k, line.len());
    assert(t@ =~= trim_start(line@));
    t.len() > 0 && t[0] != '#' && contains_chars(&t, &chars_of("fpath")) && contains_chars(
        &t,
        &chars_of("~/.zsh/completion"),
    )
}

/// Tells whether a `.zshrc` with the given text still has to add the
/// directory of the completions to `fpath`.
pub fn needs_fpath(content: &str) -> (r: bool)
    ensures
        r == lacks_fpath(content@),
{
    let all = split_lines(&chars_of(content));
    let mut i: usize = 0;
    while i < all.len()
        invariant
            i <= all.len(),
            lines_view(all@) == lines(content@),
            forall|j: int| 0 <= j < i ==> !sets_fpath(#[trigger] lines(content@)[j]),
        decreases all.len() - i,
    {
        assert(lines_view(all@)[i as int] == all@[i as int]@);
        if line_sets_fpath(&all[i]) {
            return false;
        }
        i += 1;
    }
    assert(lines_view(all@).len() == all@.len());
    true
}

/// Tells whether a `.zshrc` with the given text still has to load `compinit`.
pub fn needs_compinit(content: &str) -> (r: bool)
    ensures
        r == lacks_compinit(content@),
{
    !contains_chars(&chars_of(content), &chars_of("autoload -Uz compinit"))
}

} // verus!
