//! Reconciles a local tree of game-save files with a versioned snapshot held in a
//! shared repository: path resolution, the local snapshot walk, manifests, the
//! three-way sync decision and the ordered transfer plans.

pub mod commands;
pub mod games;
pub mod repository;
pub mod utils;
