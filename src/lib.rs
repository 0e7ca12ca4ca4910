//! Package dependency resolution and installation engine.
//!
//! The library turns a flat package manifest into a forest of root packages,
//! folds probed metadata into that forest, drives a cancellable transfer as a
//! state machine, and decides where every archive entry is installed.
pub mod error;
pub mod text;
pub mod manifest;
pub mod forest;
pub mod augment;
pub mod transfer;
pub mod install;
pub mod routes;
pub mod config;
pub mod ini;
