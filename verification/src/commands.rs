//! The operations the command line offers.

pub mod set_repository;
pub mod show;
pub mod sync;
