//! Session routing logic for the `this-code` command-line companion of the
//! VS Code extension: path handling, the session store's selection rules and
//! the text the command prints.

pub mod text;
pub mod config;
pub mod db;
pub mod install;
pub mod json;
pub mod paths;
pub mod query;
pub mod shim;
pub mod which;
