//! A lightweight version-control engine for a tree of knowledge files: a
//! content-addressed snapshot store, append-only per-branch commit logs,
//! branch and head references, and a context-diff engine that classifies
//! what changed between tree states and estimates the corpus size in
//! language-model tokens. Every operation is specified and verified over a
//! mathematical model of the vault state; reading and writing that state
//! on disk is left to callers around the library.

pub mod archive;
pub mod cloning;
pub mod context;
pub mod diff;
pub mod digest;
pub mod errors;
pub mod models;
pub mod ops;
pub mod storage;
pub mod strutil;
pub mod textproc;
pub mod utils;
pub mod wikilink;
