//! The launcher half of a pinned-engine command-line tool.
//!
//! A tool built this way has two pieces. The engine does the work and is
//! version-pinned by each repo that uses it. The launcher is what sits on
//! `PATH`: it finds the repo, reads the pin, builds that exact engine once into
//! a shared per-version cache, and hands over to it with an absolute working
//! directory. This library is every decision the launcher makes on the way,
//! each stated as a contract and proved; the reading, writing, spawning and
//! handing over are its caller's.

pub mod args;
pub mod cache;
pub mod discover;
pub mod engine;
pub mod env;
pub mod extension;
pub mod hash;
pub mod launch;
pub mod manifest;
pub mod path;
pub mod pin;
pub mod registry;
pub mod selfupdate;
pub mod text;
pub mod tool;
pub mod toml_doc;

pub use crate::env::GIT_REPO_ENV;
pub use crate::manifest::{package_name_in, Header, Pin, Reference};
pub use crate::pin::Resolved;
pub use crate::tool::{Anchor, Cli, Locate, PinKeys, SelfUpdate, Tool, VersionSource, Workdir};
