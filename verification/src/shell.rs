//! The choice of the shell that runs the commands.

use vstd::prelude::*;
use vstd::string::StringExecFns;
use crate::text::optional_view;

verus! {

/// The shell to run commands with: the one that the user has set; else, on
/// Windows, `bash` if it is on the search path and the usual place of Git
/// Bash if it is not; else `sh`.
pub open spec fn chosen_shell(custom: Option<Seq<char>>, windows: bool, bash_on_path: bool) -> Seq<
    char,
> {
    match custom {
        Some(shell) => shell,
        None => if windows {
            if bash_on_path {
                "bash"@
            } else {
                "C:\\Program Files\\Git\\bin\\bash.exe"@
            }
        } else {
            "sh"@
        },
    }
}

/// Chooses the shell to run commands with. `custom` is the shell that the
/// user has set, if any; `windows` tells whether the program runs on
/// Windows; `bash_on_path` whether `bash` is on the search path.
pub fn shell_program(custom: Option<String>, windows: bool, bash_on_path: bool) -> (r: String)
    ensures
        r@ == chosen_shell(optional_view(custom), windows, bash_on_path),
{
    match custom {
        Some(shell) => shell,
        None => {
            if windows {
                if bash_on_path {
                    String::from_str("bash")
                } else {
                    String::from_str("C:\\Program Files\\Git\\bin\\bash.exe")
                }
            } else {
                String::from_str("sh")
            }
        },
    }
}

/// `which::which` of the crate `which`: whether it finds an executable file
/// of the given name on the search path. What it finds depends on the
/// machine, so nothing is claimed of the answer.
#[verifier::external_body]
fn on_search_path(program: &str) -> (found: bool) {
    which::which(program).is_ok()
}

/// Chooses the shell to run commands with, and looks for `bash` on the
/// search path where the choice depends on it: on Windows, when the user has
/// set no shell.
pub fn default_shell(custom: Option<String>, windows: bool) -> (r: String)
    ensures
        custom is Some || !windows ==> r@ == chosen_shell(optional_view(custom), windows, false),
        custom is None && windows ==> r@ == chosen_shell(None, true, true) || r@ == chosen_shell(
            None,
            true,
            false,
        ),
{
    let found = match custom {
        Some(_) => false,
        None => windows && on_search_path("bash"),
    };
    shell_program(custom, windows, found)
}

} // verus!
