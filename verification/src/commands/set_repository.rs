//! Setting the repository: where the saves are stored.

use vstd::prelude::*;
use vstd::string::*;
use crate::games::paths::{is_absolute, path_is_absolute, path_join, path_joined};
use crate::repository::{RepositoryError, RepositoryErrorKind, RepositoryProbe};
use crate::utils::config::{Config, RepositoryConfig};

verus! {

/// What the operator asked for: the path of the repository, absolute or
/// relative to the working directory.
#[derive(Debug)]
pub struct SetRepositoryArgs {
    pub path: String,
}

/// What setting the repository comes to.
#[derive(Debug)]
pub struct RepositorySetup {
    /// Whether the root marker has to be created in the directory.
    pub create_marker: bool,
    /// The configuration to save once the repository has been verified.
    pub config: Config,
}

/// The repository path that a configuration holds, if it holds one.
pub open spec fn configured_path(config: Option<RepositoryConfig>) -> Option<Seq<char>> {
    match config {
        Some(c) => Some(c.path@),
        None => None,
    }
}

/// Why the directory at `path` cannot become the repository, if it cannot: the
/// path has to be absolute, something has to exist there, it has to be a
/// directory, and a directory without the root marker has to be empty.
pub open spec fn setup_failure(path: Seq<char>, probe: RepositoryProbe) -> Option<RepositoryErrorKind> {
    if !is_absolute(path) {
        Some(RepositoryErrorKind::NotAbsolute)
    } else if !probe.exists {
        Some(RepositoryErrorKind::DoesNotExist)
    } else if !probe.is_dir {
        Some(RepositoryErrorKind::NotADirectory)
    } else if !probe.has_marker && probe.has_entries {
        Some(RepositoryErrorKind::PathNotEmpty)
    } else {
        None
    }
}

/// Why the configured repository does not stand, if it does not: it has to be
/// configured, absolute, existing, a directory, and initialized.
pub open spec fn verify_failure(config: Option<Seq<char>>, probe: RepositoryProbe) -> Option<
    RepositoryErrorKind,
> {
    match config {
        None => Some(RepositoryErrorKind::NotSet),
        Some(path) => if !is_absolute(path) {
            Some(RepositoryErrorKind::NotAbsolute)
        } else if !probe.exists {
            Some(RepositoryErrorKind::DoesNotExist)
        } else if !probe.is_dir {
            Some(RepositoryErrorKind::NotADirectory)
        } else if !probe.has_marker {
            Some(RepositoryErrorKind::NotARepository)
        } else {
            None
        },
    }
}

/// What the operator is told when the repository is set.
pub open spec fn setup_notice(previous: Option<Seq<char>>, path: Seq<char>) -> Seq<char> {
    match previous {
        Some(old) => "Changing repository from "@ + old + " to "@ + path,
        None => "Setting repository to "@ + path,
    }
}

/// The path of the repository to set: the path asked for, taken from the
/// working directory unless it is absolute.
pub fn repository_path(args: &SetRepositoryArgs, working_directory: &str) -> (r: String)
    ensures
        r@ == path_joined(working_directory@, args.path@),
{
    path_join(working_directory, args.path.as_str())
}

/// What the operator is told when the repository is set to `path`, with
/// `previous` the configuration so far.
pub fn notice(previous: &Config, path: &str) -> (r: String)
    ensures
        r@ == setup_notice(configured_path(previous.repository), path@),
{
    match &previous.repository {
        Some(old) => {
            let mut text = String::from_str("Changing repository from ");
            text.append(old.path.as_str());
            text.append(" to ");
            text.append(path);
            text
        },
        None => {
            let mut text = String::from_str("Setting repository to ");
            text.append(path);
            text
        },
    }
}

/// Decides how the directory at `path` becomes the repository, from what was
/// found at `path`.
pub fn set_repository(path: &str, probe: RepositoryProbe) -> (r: Result<
    RepositorySetup,
    RepositoryError,
>)
    ensures
        match r {
            Ok(setup) => {
                &&& setup_failure(path@, probe) is None
                &&& setup.create_marker == !probe.has_marker
                &&& configured_path(setup.config.repository) == Some(path@)
            },
            Err(e) => setup_failure(path@, probe) == Some(e.kind()) && e.path() == path@,
        },
{
    if !path_is_absolute(path) {
        return Err(RepositoryError::NotAbsolute { path: String::from_str(path) });
    }
    if !probe.exists {
        return Err(RepositoryError::DoesNotExist { path: String::from_str(path) });
    }
    if !probe.is_dir {
        return Err(RepositoryError::NotADirectory { path: String::from_str(path) });
    }
    if !probe.has_marker && probe.has_entries {
        return Err(RepositoryError::PathNotEmpty { path: String::from_str(path) });
    }
    Ok(
        RepositorySetup {
            create_marker: !probe.has_marker,
            config: Config { repository: Some(RepositoryConfig { path: String::from_str(path) }) },
        },
    )
}

/// Checks that the configured repository stands.
pub fn verify_repository(config: &Option<RepositoryConfig>, probe: RepositoryProbe) -> (r: Result<
    (),
    RepositoryError,
>)
    ensures
        match r {
            Ok(_) => verify_failure(configured_path(*config), probe) is None,
            Err(e) => verify_failure(configured_path(*config), probe) == Some(e.kind())
                && (config matches Some(c) ==> e.path() == c.path@),
        },
{
    let config = match config {
        Some(config) => config,
        None => {
            return Err(RepositoryError::NotSet);
        },
    };
    if !path_is_absolute(config.path.as_str()) {
        return Err(RepositoryError::NotAbsolute { path: config.path.clone() });
    }
    if !probe.exists {
        return Err(RepositoryError::DoesNotExist { path: config.path.clone() });
    }
    if !probe.is_dir {
        return Err(RepositoryError::NotADirectory { path: config.path.clone() });
    }
    if !probe.has_marker {
        return Err(RepositoryError::NotARepository { path: config.path.clone() });
    }
    Ok(())
}

} // verus!
