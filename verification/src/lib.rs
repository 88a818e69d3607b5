//! Core logic of a desktop capture application: a single-owner job runtime
//! for a non-thread-safe capture engine, a window-detection engine that
//! diffs snapshots and classifies windows against a catalog, and an
//! authentication handshake with deep-link correlation and credential
//! persistence.

pub mod auth;
pub mod catalog;
pub mod consts;
pub mod credentials;
pub mod detection;
pub mod refresh;
pub mod routes;
pub mod runtime;
pub mod text;
pub mod util;
