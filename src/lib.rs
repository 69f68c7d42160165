//! Curated sets of software packages grouped into fixed categories, with a
//! versioned store, per-category views and identity-addressed editing.

pub mod app;
pub mod config;
pub mod package;
pub mod page;
