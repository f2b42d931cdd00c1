use run::completion::{detect_shell, needs_compinit, needs_fpath, Shell};
use run::shell::{default_shell, shell_program};

#[test]
fn the_shell_is_found_in_the_variable() {
    assert_eq!(detect_shell("/bin/bash"), Some(Shell::Bash));
    assert_eq!(detect_shell("/usr/bin/zsh"), Some(Shell::Zsh));
    assert_eq!(detect_shell("/usr/local/bin/fish"), Some(Shell::Fish));
    assert_eq!(detect_shell("/bin/ksh"), None);
    assert_eq!(detect_shell(""), None);
    assert_eq!(detect_shell("/opt/zsh/bin/bash"), Some(Shell::Bash));
    assert_eq!(detect_shell("/opt/fish/bin/zsh"), Some(Shell::Zsh));
}

#[test]
fn test_install_completion_auto_detect_fails_with_unknown_shell() {
    assert_eq!(detect_shell("/bin/ksh"), None);
}

#[test]
fn test_install_completion_detects_missing_zshrc_config() {
    assert!(needs_fpath("# Empty zshrc\n"));
    assert!(needs_compinit("# Empty zshrc\n"));
}

#[test]
fn an_empty_zshrc_lacks_everything() {
    assert!(needs_fpath(""));
    assert!(needs_compinit(""));
}

#[test]
fn test_install_completion_detects_existing_zshrc_config() {
    let content = "\n# My zshrc\nfpath=(~/.zsh/completion $fpath)\nautoload -Uz compinit && compinit\n";
    assert!(!needs_fpath(content));
    assert!(!needs_compinit(content));
}

#[test]
fn test_install_completion_detects_partial_zshrc_config() {
    let content = "\n# My zshrc\nfpath=(~/.zsh/completion $fpath)\n";
    assert!(!needs_fpath(content));
    assert!(needs_compinit(content));
}

#[test]
fn a_commented_fpath_does_not_count() {
    assert!(needs_fpath("  # fpath=(~/.zsh/completion $fpath)\n"));
    assert!(needs_fpath("fpath=(~/other $fpath)\n~/.zsh/completion\n"));
    assert!(!needs_fpath("   fpath+=~/.zsh/completion # mine"));
    assert!(!needs_compinit("# autoload -Uz compinit"));
}

#[test]
fn the_shell_that_runs_the_commands() {
    assert_eq!(shell_program(Some("zsh".to_string()), false, false), "zsh");
    assert_eq!(shell_program(Some("zsh".to_string()), true, true), "zsh");
    assert_eq!(shell_program(None, false, false), "sh");
    assert_eq!(shell_program(None, false, true), "sh");
    assert_eq!(shell_program(None, true, true), "bash");
    assert_eq!(shell_program(None, true, false), "C:\\Program Files\\Git\\bin\\bash.exe");
}

#[test]
fn the_search_path_is_asked_only_where_it_decides() {
    assert_eq!(default_shell(Some("fish".to_string()), false), "fish");
    assert_eq!(default_shell(Some("fish".to_string()), true), "fish");
    assert_eq!(default_shell(None, false), "sh");
    let on_windows = default_shell(None, true);
    assert!(
        on_windows == "bash" || on_windows == "C:\\Program Files\\Git\\bin\\bash.exe",
        "{:?}",
        on_windows
    );
}
