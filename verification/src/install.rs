//! What `this-code install` writes and prints.

use vstd::prelude::*;
use crate::config::OWN_BIN_RELATIVE;
use crate::paths::{join_path, spec_join_path};
use crate::text::string_views;

verus! {

/// Content written to `~/.this-code/env`.
///
/// POSIX sh script that prepends `~/.this-code/bin` to `PATH` behind a
/// case-colon guard. Users source it from `~/.bashrc` or `~/.zshrc` (not
/// `~/.zshenv`: macOS `path_helper` in `/etc/zprofile` runs after it and would
/// reorder `PATH`).
pub const ENV_FILE_CONTENT: &'static str = "#!/bin/sh
# this-code shell integration
# Source this file from ~/.bashrc or ~/.zshrc:
#
#     . \"$HOME/.this-code/env\"
#
# Do NOT source from ~/.zshenv — macOS path_helper reorders PATH set there.

THIS_CODE_HOME=\"${THIS_CODE_HOME:-$HOME/.this-code}\"
case \":${PATH}:\" in
  *\":${THIS_CODE_HOME}/bin:\"*) ;;
  *) export PATH=\"${THIS_CODE_HOME}/bin:${PATH}\" ;;
esac
";

/// Content written to `~/.config/fish/conf.d/this-code.fish`.
///
/// `fish_add_path --prepend` is idempotent (fish 3.2+ deduplicates) and keeps
/// the directory leftmost.
pub const FISH_FILE_CONTENT: &'static str = "# this-code fish integration
# Auto-sourced by fish from conf.d on startup.
fish_add_path --prepend \"$HOME/.this-code/bin\"
";

/// Location of the env script relative to the home directory.
pub const ENV_FILE_RELATIVE: &'static str = ".this-code/env";

/// Location of fish's `conf.d` directory relative to the home directory.
pub const FISH_CONF_DIR_RELATIVE: &'static str = ".config/fish/conf.d";

/// Name of the fish integration file inside `conf.d`.
pub const FISH_FILE_NAME: &'static str = "this-code.fish";

/// Name of the shim link inside the `bin` directory.
pub const CODE_LINK_NAME: &'static str = "code";

/// Target of the shim link: the binary beside it (relative, both in one
/// directory).
pub const CODE_LINK_TARGET: &'static str = "this-code";

/// The line users add to their shell start-up file.
pub const SOURCE_LINE: &'static str = "    . \"$HOME/.this-code/env\"";

/// Files and links `install` puts in place, and what it prints afterwards.
pub struct InstallPlan {
    /// Directory created (with its parents): `~/.this-code/bin`.
    pub bin_dir: String,
    /// File written with `ENV_FILE_CONTENT`: `~/.this-code/env`.
    pub env_path: String,
    /// Link (re)created inside `bin_dir`, pointing at `CODE_LINK_TARGET`.
    pub link_path: String,
    /// With `--fish`: directory created (with its parents) and file written
    /// with `FISH_FILE_CONTENT`.
    pub fish: Option<(String, String)>,
    /// Lines printed once everything is written, in order.
    pub messages: Vec<String>,
}

/// The lines `install` prints, given the `bin` directory and, with
/// `--fish`, the fish file.
pub open spec fn spec_install_messages(bin_dir: Seq<char>, fish_path: Option<Seq<char>>) -> Seq<Seq<char>> {
    let fish_lines = match fish_path {
        Some(f) => seq!["Fish integration installed to "@ + f],
        None => Seq::<Seq<char>>::empty(),
    };
    fish_lines + seq![
        "this-code installed to "@ + bin_dir + "/"@,
        ""@,
        "To activate, add the following line to ~/.bashrc or ~/.zshrc:"@,
        ""@,
        SOURCE_LINE@,
        ""@,
        "Then restart your shell or run:"@,
        ""@,
        SOURCE_LINE@,
    ]
}

/// Plan the install for the home directory `home`; `fish` adds the fish
/// integration.
pub fn install_plan(home: &str, fish: bool) -> (r: InstallPlan)
    ensures
        r.bin_dir@ == spec_join_path(home@, OWN_BIN_RELATIVE@),
        r.env_path@ == spec_join_path(home@, ENV_FILE_RELATIVE@),
        r.link_path@ == spec_join_path(r.bin_dir@, CODE_LINK_NAME@),
        fish <==> r.fish is Some,
        r.fish matches Some((dir, file)) ==> {
            &&& dir@ == spec_join_path(home@, FISH_CONF_DIR_RELATIVE@)
            &&& file@ == spec_join_path(dir@, FISH_FILE_NAME@)
        },
        string_views(r.messages@) == spec_install_messages(
            r.bin_dir@,
            match r.fish {
                Some((_, f)) => Some(f@),
                None => None,
            },
        ),
{
    let bin_dir = join_path(home, OWN_BIN_RELATIVE);
    let env_path = join_path(home, ENV_FILE_RELATIVE);
    let link_path = join_path(bin_dir.as_str(), CODE_LINK_NAME);
    let mut messages: Vec<String> = Vec::new();
    let fish_files = if fish {
        let dir = join_path(home, FISH_CONF_DIR_RELATIVE);
        let file = join_path(dir.as_str(), FISH_FILE_NAME);
        let line = String::from_str("Fish integration installed to ").concat(file.as_str());
        messages.push(line);
        Some((dir, file))
    } else {
        None
    };
    let installed = String::from_str("this-code installed to ").concat(bin_dir.as_str()).concat("/");
    messages.push(installed);
    messages.push(String::from_str(""));
    messages.push(String::from_str("To activate, add the following line to ~/.bashrc or ~/.zshrc:"));
    messages.push(String::from_str(""));
    messages.push(String::from_str(SOURCE_LINE));
    messages.push(String::from_str(""));
    messages.push(String::from_str("Then restart your shell or run:"));
    messages.push(String::from_str(""));
    messages.push(String::from_str(SOURCE_LINE));
    let ghost fish_view = match &fish_files {
        Some(pair) => Some(pair.1@),
        None => None::<Seq<char>>,
    };
    assert(string_views(messages@) =~= spec_install_messages(bin_dir@, fish_view));
    InstallPlan { bin_dir, env_path, link_path, fish: fish_files, messages }
}

} // verus!
