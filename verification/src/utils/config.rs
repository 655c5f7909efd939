//! The configuration of the application on this device.

use vstd::prelude::*;
use crate::games::paths::{path_join, path_joined};
use crate::utils::paths::{config_dir, DirectoryError};

verus! {

/// Where the repository is.
#[derive(Debug)]
pub struct RepositoryConfig {
    pub path: String,
}

/// The configuration: the repository, once one is set.
#[derive(Debug)]
pub struct Config {
    pub repository: Option<RepositoryConfig>,
}

impl Default for Config {
    /// The configuration before a repository is set.
    fn default() -> (r: Config)
        ensures
            r.repository is None,
    {
        Config { repository: None }
    }
}

/// The path of the configuration file in the configuration directory.
pub open spec fn config_path_in(directory: Seq<char>) -> Seq<char> {
    path_joined(directory, "config.toml"@)
}

/// The path of the configuration file in the given configuration directory.
pub fn config_file(directory: &str) -> (r: String)
    ensures
        r@ == config_path_in(directory@),
{
    path_join(directory, "config.toml")
}

/// The path of the configuration file on this device.
pub fn config_path() -> (r: Result<String, DirectoryError>)
    ensures
        r matches Ok(path) ==> exists|directory: Seq<char>| path@ == #[trigger] config_path_in(directory),
{
    config_path_from(config_dir())
}

/// The path of the configuration file, from what the search for the
/// configuration directory gave: the file in that directory, or the reason
/// there is no such directory.
pub fn config_path_from(found: Result<String, DirectoryError>) -> (r: Result<String, DirectoryError>)
    ensures
        match found {
            Ok(directory) => r matches Ok(path) && path@ == config_path_in(directory@),
            Err(e) => r == Err::<String, DirectoryError>(e),
        },
{
    match found {
        Ok(directory) => Ok(config_file(directory.as_str())),
        Err(e) => Err(e),
    }
}

} // verus!
