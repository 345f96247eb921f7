//! Versioned static-site deployment: a registry of named, aliased site versions
//! and a builder for the import stream that records one deployment as a commit.

pub mod assoc;
pub mod text;
pub mod order;
pub mod versions;
pub mod git;
pub mod commands;
