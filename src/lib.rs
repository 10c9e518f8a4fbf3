//! Packages a repository into a single document: the files selected under
//! include/exclude glob rules, each with its text, and a rendered directory
//! tree, either of the whole repository or pruned to a set of target paths.
//!
//! The library works on an in-memory picture of the directory tree (see
//! `snapshot`), so every decision it takes is a function of plain values.

pub mod config;
pub mod context;
pub mod error;
pub mod files;
pub mod filter;
pub mod git;
pub mod laws;
pub mod output;
pub mod rank;
pub mod snapshot;
pub mod summary;
pub mod tree;
pub mod types;

pub use config::Config;
pub use context::ContextManager;
pub use output::{OutputContext, OutputDestination, OutputFormat};
pub use tree::TreeContext;
pub use types::{FileContext, FileEntry, GitInfo, RepositoryContext};
