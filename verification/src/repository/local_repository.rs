//! A repository in a directory of the local file system.

use vstd::prelude::*;
use crate::games::paths::path_is_absolute;
use crate::repository::{open_failure, RepositoryError, RepositoryProbe};
use crate::utils::paths::{local_path_of, relative_to_path};

verus! {

/// Where a local repository is.
#[derive(Debug)]
pub struct LocalRepositoryConfig {
    pub path: String,
}

/// An open local repository.
#[derive(Debug)]
pub struct LocalRepository {
    path: String,
}

impl LocalRepository {
    /// The path of the repository's root directory.
    pub closed spec fn root(&self) -> Seq<char> {
        self.path@
    }

    /// The path of the repository's root directory.
    pub fn root_path(&self) -> (r: &str)
        ensures
            r@ == self.root(),
    {
        self.path.as_str()
    }

    /// Where a path of the repository lies in the local file system: under the
    /// root directory.
    pub fn locate(&self, path: &str) -> (r: String)
        ensures
            r@ == local_path_of(path@, self.root()),
    {
        relative_to_path(path, self.path.as_str())
    }
}

/// Opens the directory that `config` names as a repository. The path has to be
/// absolute, something has to exist there, and it has to be a directory.
pub fn open_repository(config: &LocalRepositoryConfig, probe: RepositoryProbe) -> (r: Result<
    LocalRepository,
    RepositoryError,
>)
    ensures
        match r {
            Ok(repository) => open_failure(config.path@, probe) is None && repository.root()
                == config.path@,
            Err(e) => open_failure(config.path@, probe) == Some(e.kind()) && e.path()
                == config.path@,
        },
{
    if !path_is_absolute(config.path.as_str()) {
        return Err(RepositoryError::NotAbsolute { path: config.path.clone() });
    }
    if !probe.exists {
        return Err(RepositoryError::DoesNotExist { path: config.path.clone() });
    }
    if !probe.is_dir {
        return Err(RepositoryError::NotADirectory { path: config.path.clone() });
    }
    Ok(LocalRepository { path: config.path.clone() })
}

} // verus!
