//! A verified core for a multi-tenant folder / tag / app backend.
//!
//! The heart of the crate is the folder hierarchy: within every
//! (tenant, workspace, folder type, parent) scope the sibling folders carry a
//! dense, gapless sequence of positions `1..=n`, and the mutation operations
//! (create, rename, delete, move) are proved to keep that invariant.

pub mod app;
pub mod code;
pub mod config;
pub mod folder;
pub mod id;
pub mod laws;
pub mod models;
pub mod ops;
pub mod store;
pub mod subscription;
pub mod tag;
pub mod tree;
pub mod ts_str;
pub mod user;
pub mod version;
pub mod workspace;
