//! The kinds of repository. There is one: a directory of the local file
//! system.

use vstd::prelude::*;
use crate::repository::local_repository::{LocalRepository, LocalRepositoryConfig};

verus! {

/// The configuration of a repository of some kind.
#[derive(Debug)]
pub enum AnyRepositoryConfig {
    Local(LocalRepositoryConfig),
}

impl AnyRepositoryConfig {
    /// The path the repository is configured at.
    pub open spec fn path(&self) -> Seq<char> {
        match self {
            AnyRepositoryConfig::Local(config) => config.path@,
        }
    }

    /// The text that shows the configuration: the configured path.
    pub fn path_text(&self) -> (r: String)
        ensures
            r@ == self.path(),
    {
        match self {
            AnyRepositoryConfig::Local(config) => config.path.clone(),
        }
    }
}

/// An open repository of some kind.
#[derive(Debug)]
pub enum AnyRepository {
    Local(LocalRepository),
}

impl AnyRepository {
    /// The path of the repository's root.
    pub open spec fn path(&self) -> Seq<char> {
        match self {
            AnyRepository::Local(repository) => repository.root(),
        }
    }

    /// Where a path of the repository lies in the local file system.
    pub fn locate(&self, path: &str) -> (r: String)
        ensures
            r@ == crate::utils::paths::local_path_of(path@, self.path()),
    {
        match self {
            AnyRepository::Local(repository) => repository.locate(path),
        }
    }
}

} // verus!
