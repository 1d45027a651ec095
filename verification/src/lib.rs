//! Keyword-addressed word files: the rules of a small knowledge base whose
//! directory tree encodes a fixed hierarchy of classification levels and whose
//! leaf files hold one entry per line.
//!
//! Everything here works on plain values. Reading and writing the tree is left
//! to the caller, who hands in names, listings and file contents and gets back
//! what is to be written or asked next.

pub mod commands;
pub mod config;
pub mod content;
pub mod distinct;
pub mod lines;
pub mod names;
pub mod order;
pub mod prompt;
pub mod query;
pub mod session;
pub mod sorting;
pub mod text;
pub mod tree;
