//! The repository: the shared store that holds, for each game, its definition,
//! its manifest and the object tree of its current version.

use vstd::prelude::*;
use vstd::string::*;

pub mod any_repository;
pub mod local_repository;

use crate::repository::any_repository::{AnyRepository, AnyRepositoryConfig};

verus! {

/// What the caller found at the place a repository is configured to be.
#[derive(Clone, Copy, Debug, PartialEq, Eq, Structural)]
pub struct RepositoryProbe {
    /// Something exists at the configured path.
    pub exists: bool,
    /// It is a directory.
    pub is_dir: bool,
    /// The directory holds the root marker as a file.
    pub has_marker: bool,
    /// The directory holds at least one entry.
    pub has_entries: bool,
}

/// Why a repository cannot be used.
#[derive(Debug)]
pub enum RepositoryError {
    /// No repository is configured.
    NotSet,
    /// The configured path is not absolute.
    NotAbsolute { path: String },
    /// Nothing exists at the configured path.
    DoesNotExist { path: String },
    /// The configured path is not a directory.
    NotADirectory { path: String },
    /// The directory does not hold the root marker.
    NotInitialized { path: String },
    /// The directory holds no root marker and is not empty.
    NotEmpty { path: String },
    /// The configured directory has not been initialized as a repository.
    NotARepository { path: String },
    /// The directory that is to become the repository is not empty.
    PathNotEmpty { path: String },
}

/// The kinds of failure, without the path.
#[derive(Clone, Copy, Debug, PartialEq, Eq, Structural)]
pub enum RepositoryErrorKind {
    NotSet,
    NotAbsolute,
    DoesNotExist,
    NotADirectory,
    NotInitialized,
    NotEmpty,
    NotARepository,
    PathNotEmpty,
}

impl RepositoryError {
    /// The kind of the failure.
    pub open spec fn kind(&self) -> RepositoryErrorKind {
        match self {
            RepositoryError::NotSet => RepositoryErrorKind::NotSet,
            RepositoryError::NotAbsolute { .. } => RepositoryErrorKind::NotAbsolute,
            RepositoryError::DoesNotExist { .. } => RepositoryErrorKind::DoesNotExist,
            RepositoryError::NotADirectory { .. } => RepositoryErrorKind::NotADirectory,
            RepositoryError::NotInitialized { .. } => RepositoryErrorKind::NotInitialized,
            RepositoryError::NotEmpty { .. } => RepositoryErrorKind::NotEmpty,
            RepositoryError::NotARepository { .. } => RepositoryErrorKind::NotARepository,
            RepositoryError::PathNotEmpty { .. } => RepositoryErrorKind::PathNotEmpty,
        }
    }

    /// The path the failure is about; empty where no repository is configured.
    pub open spec fn path(&self) -> Seq<char> {
        match self {
            RepositoryError::NotSet => Seq::<char>::empty(),
            RepositoryError::NotAbsolute { path } => path@,
            RepositoryError::DoesNotExist { path } => path@,
            RepositoryError::NotADirectory { path } => path@,
            RepositoryError::NotInitialized { path } => path@,
            RepositoryError::NotEmpty { path } => path@,
            RepositoryError::NotARepository { path } => path@,
            RepositoryError::PathNotEmpty { path } => path@,
        }
    }
}

/// What a failure is shown as.
pub open spec fn repository_error_text(kind: RepositoryErrorKind, path: Seq<char>) -> Seq<char> {
    match kind {
        RepositoryErrorKind::NotSet => "Repository is not set"@,
        RepositoryErrorKind::NotAbsolute => "Path "@ + path + " is not absolute"@,
        RepositoryErrorKind::DoesNotExist => "Path "@ + path + " does not exist"@,
        RepositoryErrorKind::NotADirectory => "Path "@ + path + " is not a directory"@,
        RepositoryErrorKind::NotInitialized => "Repository "@ + path
            + " has not been correctly initialized"@,
        RepositoryErrorKind::NotEmpty => "Repository "@ + path + " should be empty"@,
        RepositoryErrorKind::NotARepository => "Path "@ + path
            + " has not been initialized as a repository"@,
        RepositoryErrorKind::PathNotEmpty => "Path "@ + path + " is not empty"@,
    }
}

fn framed(before: &str, path: &str, after: &str) -> (r: String)
    ensures
        r@ == before@ + path@ + after@,
{
    let mut text = String::from_str(before);
    text.append(path);
    text.append(after);
    text
}

impl RepositoryError {
    /// The text that shows the failure.
    pub fn message(&self) -> (r: String)
        ensures
            r@ == repository_error_text(self.kind(), self.path()),
    {
        match self {
            RepositoryError::NotSet => String::from_str("Repository is not set"),
            RepositoryError::NotAbsolute { path } => framed("Path ", path.as_str(), " is not absolute"),
            RepositoryError::DoesNotExist { path } => framed("Path ", path.as_str(), " does not exist"),
            RepositoryError::NotADirectory { path } => framed(
                "Path ",
                path.as_str(),
                " is not a directory",
            ),
            RepositoryError::NotInitialized { path } => framed(
                "Repository ",
                path.as_str(),
                " has not been correctly initialized",
            ),
            RepositoryError::NotEmpty { path } => framed(
                "Repository ",
                path.as_str(),
                " should be empty",
            ),
            RepositoryError::NotARepository { path } => framed(
                "Path ",
                path.as_str(),
                " has not been initialized as a repository",
            ),
            RepositoryError::PathNotEmpty { path } => framed("Path ", path.as_str(), " is not empty"),
        }
    }
}

/// The name of the empty file that marks the root of an initialized
/// repository.
pub fn root_marker() -> (name: &'static str)
    ensures
        name@ == "GameSaveSync.toml"@,
{
    "GameSaveSync.toml"
}

/// Why the directory at `path` cannot be opened as a repository, if it cannot:
/// the path has to be absolute, something has to exist there, and it has to be
/// a directory.
pub open spec fn open_failure(path: Seq<char>, probe: RepositoryProbe) -> Option<RepositoryErrorKind> {
    if !crate::games::paths::is_absolute(path) {
        Some(RepositoryErrorKind::NotAbsolute)
    } else if !probe.exists {
        Some(RepositoryErrorKind::DoesNotExist)
    } else if !probe.is_dir {
        Some(RepositoryErrorKind::NotADirectory)
    } else {
        None
    }
}

/// Why the configured repository cannot be used as an existing repository, if
/// it cannot: it has to be configured, it has to open, and it has to hold the
/// root marker.
pub open spec fn use_failure(config: Option<AnyRepositoryConfig>, probe: RepositoryProbe) -> Option<
    RepositoryErrorKind,
> {
    match config {
        None => Some(RepositoryErrorKind::NotSet),
        Some(c) => match open_failure(c.path(), probe) {
            Some(kind) => Some(kind),
            None => if !probe.has_marker {
                Some(RepositoryErrorKind::NotInitialized)
            } else {
                None
            },
        },
    }
}

/// Why the configured repository cannot be prepared, if it cannot: it has to be
/// configured and it has to open, and a directory without the root marker has
/// to be empty.
pub open spec fn prepare_failure(config: Option<AnyRepositoryConfig>, probe: RepositoryProbe) -> Option<
    RepositoryErrorKind,
> {
    match config {
        None => Some(RepositoryErrorKind::NotSet),
        Some(c) => match open_failure(c.path(), probe) {
            Some(kind) => Some(kind),
            None => if !probe.has_marker && probe.has_entries {
                Some(RepositoryErrorKind::NotEmpty)
            } else {
                None
            },
        },
    }
}

/// Opens the repository that a configuration describes.
pub fn open_repository(config: &AnyRepositoryConfig, probe: RepositoryProbe) -> (r: Result<
    AnyRepository,
    RepositoryError,
>)
    ensures
        match r {
            Ok(repository) => open_failure(config.path(), probe) is None && repository.path()
                == config.path(),
            Err(e) => open_failure(config.path(), probe) == Some(e.kind()) && e.path()
                == config.path(),
        },
{
    match config {
        AnyRepositoryConfig::Local(local_config) => {
            match local_repository::open_repository(local_config, probe) {
                Ok(repository) => Ok(AnyRepository::Local(repository)),
                Err(e) => Err(e),
            }
        },
    }
}

/// The configured repository, which has to exist and to be initialized.
pub fn get_repository(config: &Option<AnyRepositoryConfig>, probe: RepositoryProbe) -> (r: Result<
    AnyRepository,
    RepositoryError,
>)
    ensures
        match r {
            Ok(repository) => use_failure(*config, probe) is None && repository.path()
                == config->Some_0.path(),
            Err(e) => use_failure(*config, probe) == Some(e.kind()) && (config matches Some(c)
                ==> e.path() == c.path()),
        },
{
    let config = match config {
        Some(config) => config,
        None => {
            return Err(RepositoryError::NotSet);
        },
    };
    let repository = match open_repository(config, probe) {
        Ok(repository) => repository,
        Err(e) => {
            return Err(e);
        },
    };
    if !probe.has_marker {
        return Err(RepositoryError::NotInitialized { path: config.path_text() });
    }
    Ok(repository)
}

/// Whether the root marker has to be created to make the configured
/// repository usable. A directory that holds the marker is left as it is; one
/// without it has to be empty, and then gets the marker.
pub fn prepare_repository(config: &Option<AnyRepositoryConfig>, probe: RepositoryProbe) -> (r:
    Result<bool, RepositoryError>)
    ensures
        match r {
            Ok(create_marker) => prepare_failure(*config, probe) is None && create_marker
                == !probe.has_marker,
            Err(e) => prepare_failure(*config, probe) == Some(e.kind()) && (config matches Some(c)
                ==> e.path() == c.path()),
        },
{
    let config = match config {
        Some(config) => config,
        None => {
            return Err(RepositoryError::NotSet);
        },
    };
    match open_repository(config, probe) {
        Ok(_) => {},
        Err(e) => {
            return Err(e);
        },
    }
    if !probe.has_marker {
        if probe.has_entries {
            return Err(RepositoryError::NotEmpty { path: config.path_text() });
        }
        return Ok(true);
    }
    Ok(false)
}

} // verus!
