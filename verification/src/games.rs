//! Games: their definitions, their save manifests and their declared paths.

use vstd::prelude::*;

pub mod definition;
pub mod manifest;
pub mod paths;

verus! {

/// The platform whose save-path convention a game follows.
#[derive(Clone, Copy, Debug, PartialEq, Eq, Structural)]
pub enum GamePlatform {
    Linux,
}

impl GamePlatform {
    /// The display name of the platform.
    pub open spec fn text(&self) -> Seq<char> {
        match self {
            GamePlatform::Linux => "Linux"@,
        }
    }

    /// The display name of the platform.
    pub fn name(&self) -> (s: &'static str)
        ensures
            s@ == self.text(),
    {
        match self {
            GamePlatform::Linux => "Linux",
        }
    }
}

} // verus!
