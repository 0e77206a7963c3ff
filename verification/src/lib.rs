//! Incremental, hardlink-deduplicating backups: the decisions behind every
//! step of a backup run, stated over plain values and proved.
//!
//! A run walks a source tree, compares every entry with its counterpart in
//! the previous generation, and writes a new generation in which what has
//! not changed is a hardlink. This crate decides and leaves the doing to
//! its caller: it is handed what the filesystem says and answers with what
//! is to be done.
//!
//! - [`scanner`]: which entries become tasks, and what to do with each.
//! - [`executor`]: the operations that a task takes, and the commit of a
//!   finished generation.
//! - [`actions`]: tasks, actions and the counts of a run.
//! - [`prune`]: the generations below a destination, their names and order.
//! - [`hasher`]: content hashes.
//! - [`config`], [`store`], [`cli`]: settings, saved profiles and the menu
//!   over them.
//! - [`utils`], [`vss`], [`text`]: paths as text, patterns, and the figures
//!   of the report.

pub mod actions;
pub mod cli;
pub mod config;
pub mod executor;
pub mod hasher;
pub mod prune;
pub mod scanner;
pub mod store;
pub mod text;
pub mod utils;
pub mod vss;
