//! Game definitions: which paths hold a game's saves.

use vstd::prelude::*;
use crate::games::GamePlatform;
use crate::utils::paths::{relative_join, relative_joined};

verus! {

/// One declared save path of a game, possibly with a home token among its
/// segments.
#[derive(Debug)]
pub struct GameDefinitionPath {
    pub path: String,
}

impl View for GameDefinitionPath {
    type V = Seq<char>;

    open spec fn view(&self) -> Seq<char> {
        self.path@
    }
}

impl Clone for GameDefinitionPath {
    fn clone(&self) -> (r: Self)
        ensures
            r@ == self@,
    {
        GameDefinitionPath { path: self.path.clone() }
    }
}

/// A game as the repository knows it. The name is its key in the repository.
#[derive(Debug)]
pub struct GameDefinition {
    pub name: String,
    pub platform: GamePlatform,
    pub paths: Vec<GameDefinitionPath>,
    pub steam_app_id: Option<u64>,
}

/// What a game definition says.
pub struct GameDefinitionView {
    pub name: Seq<char>,
    pub platform: GamePlatform,
    pub paths: Seq<Seq<char>>,
    pub steam_app_id: Option<u64>,
}

impl View for GameDefinition {
    type V = GameDefinitionView;

    open spec fn view(&self) -> GameDefinitionView {
        GameDefinitionView {
            name: self.name@,
            platform: self.platform,
            paths: Seq::new(self.paths.len() as nat, |i: int| self.paths@[i]@),
            steam_app_id: self.steam_app_id,
        }
    }
}

impl Clone for GameDefinition {
    fn clone(&self) -> (r: Self)
        ensures
            r@ == self@,
    {
        let mut paths: Vec<GameDefinitionPath> = Vec::new();
        let mut i: usize = 0;
        while i < self.paths.len()
            invariant
                i <= self.paths.len(),
                paths.len() == i,
                forall|j: int| 0 <= j < i ==> paths@[j]@ == self.paths@[j]@,
            decreases self.paths.len() - i,
        {
            paths.push(self.paths[i].clone());
            i += 1;
        }
        let r = GameDefinition {
            name: self.name.clone(),
            platform: self.platform,
            paths,
            steam_app_id: self.steam_app_id,
        };
        assert(r@.paths =~= self@.paths);
        r
    }
}

/// Where the definition of a game lies in the repository.
pub open spec fn definition_path_of(game: Seq<char>) -> Seq<char> {
    relative_joined(game, "definition.toml"@)
}

/// Where the definition of a game lies in the repository.
pub fn definition_path(game: &str) -> (r: String)
    ensures
        r@ == definition_path_of(game@),
{
    relative_join(game, "definition.toml")
}

} // verus!
