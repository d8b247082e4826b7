//! Digest-pinned Skill packages, exact dependency resolution, and context loading.

pub mod acceptance;
pub mod canonical;
pub mod version;
pub mod path;
pub mod package;
pub mod trust;
pub mod state;
pub mod store;
pub mod registry;
pub mod graph;
pub mod engine;
pub mod source;
pub mod fetch;
