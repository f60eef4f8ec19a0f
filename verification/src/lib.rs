//! Curator gives a project its license and its code of conduct: it takes a
//! template from a remote catalog, fills in the project's own values, and
//! remembers them in a configuration file that is bound to the project's
//! directory.
//!
//! This crate holds the decisions, each with a contract that Verus proves.
//! It reads no file, asks no server and prompts no user: the caller does
//! that and hands in what came of it.
//!
//! - `config`: the configuration, its file format and its binding to a
//!   directory; `data`: its open key/value section.
//! - `template`: placeholder tokens, the tokenizer and the substitution.
//! - `license`, `conduct`: the catalog and the steps for each document.
//! - `tools`: fuzzy suggestions.
//! - `fetch`, `files`, `ignore`: what to make of a download, of a removed
//!   file and of the ignore list.
//! - `resolver`: one request as a state machine.
//! - `json`, `text`: the file format and character-level helpers.

pub mod conduct;
pub mod config;
pub mod data;
pub mod fetch;
pub mod files;
pub mod ignore;
pub mod json;
pub mod license;
pub mod resolver;
pub mod template;
pub mod text;
pub mod tools;

pub use conduct::ConductManager;
pub use config::ConfigManager;
pub use license::LicenseManager;
pub use tools::Tools;
