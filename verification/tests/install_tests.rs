use this_code::install::{install_plan, ENV_FILE_CONTENT, FISH_FILE_CONTENT};

#[test]
fn test_env_file_contains_this_code_home() {
    assert!(ENV_FILE_CONTENT.contains("THIS_CODE_HOME"));
    // Must NOT contain the old project name.
    assert!(!ENV_FILE_CONTENT.contains("WHICH_CODE_HOME"));
}

#[test]
fn test_env_file_case_colon_guard_pattern() {
    // The case-colon guard must use THIS_CODE_HOME/bin (not a hardcoded path).
    assert!(ENV_FILE_CONTENT.contains("${THIS_CODE_HOME}/bin"));
    assert!(ENV_FILE_CONTENT.contains("case \":${PATH}:\""));
}

#[test]
fn test_fish_file_uses_fish_add_path_prepend() {
    assert!(FISH_FILE_CONTENT.contains("fish_add_path --prepend"));
    // Must not use eval or set -gx (old fish patterns).
    assert!(!FISH_FILE_CONTENT.contains("set -gx"));
    assert!(!FISH_FILE_CONTENT.contains("eval"));
}

#[test]
fn test_env_file_is_posix_sh() {
    assert!(ENV_FILE_CONTENT.starts_with("#!/bin/sh"));
}

#[test]
fn install_plan_without_fish() {
    let plan = install_plan("/home/user", false);
    assert_eq!(plan.bin_dir, "/home/user/.this-code/bin");
    assert_eq!(plan.env_path, "/home/user/.this-code/env");
    assert_eq!(plan.link_path, "/home/user/.this-code/bin/code");
    assert!(plan.fish.is_none());
    assert_eq!(plan.messages.len(), 9);
    assert_eq!(plan.messages[0], "this-code installed to /home/user/.this-code/bin/");
    assert_eq!(plan.messages[1], "");
    assert_eq!(plan.messages[2], "To activate, add the following line to ~/.bashrc or ~/.zshrc:");
    assert_eq!(plan.messages[4], "    . \"$HOME/.this-code/env\"");
    assert_eq!(plan.messages[6], "Then restart your shell or run:");
    assert_eq!(plan.messages[8], "    . \"$HOME/.this-code/env\"");
}

#[test]
fn install_plan_with_fish() {
    let plan = install_plan("/home/user", true);
    let (dir, file) = plan.fish.clone().expect("fish files");
    assert_eq!(dir, "/home/user/.config/fish/conf.d");
    assert_eq!(file, "/home/user/.config/fish/conf.d/this-code.fish");
    assert_eq!(plan.messages.len(), 10);
    assert_eq!(
        plan.messages[0],
        "Fish integration installed to /home/user/.config/fish/conf.d/this-code.fish"
    );
    assert_eq!(plan.messages[1], "this-code installed to /home/user/.this-code/bin/");
}
