//! Save manifests: which files, with which metadata, make up one version of a
//! game's saves.

use vstd::prelude::*;
use crate::games::definition::{GameDefinition, GameDefinitionView};
use crate::games::paths::{path_join, path_joined};
use crate::utils::paths::{relative_join, relative_joined};
use crate::utils::string_map::StringMap;

verus! {

/// What identifies the state of a save file: when it was last modified, in
/// nanoseconds since the Unix epoch (UTC), and its size in bytes. Two files
/// count as the same exactly when both agree; content is never compared.
#[derive(Clone, Copy, Debug, PartialEq, Eq, Structural)]
pub struct GameSaveFileMetadata {
    pub modified: i128,
    pub size: u64,
}

/// A moment with the offset from UTC it is shown in: nanoseconds since the Unix
/// epoch and the offset in seconds.
#[derive(Clone, Copy, Debug, PartialEq, Eq, Structural)]
pub struct Timestamp {
    pub unix_nanos: i128,
    pub offset_seconds: i32,
}

/// The files under one declared path, by their path relative to it.
pub type SaveFileTable = StringMap<GameSaveFileMetadata>;

/// One version of a game's saves: the version identifier, the definition as of
/// that version, the time of the commit, and for each declared path the files
/// under it.
pub struct GameSaveManifest {
    pub id: String,
    pub definition: GameDefinition,
    pub timestamp: Timestamp,
    pub files: StringMap<SaveFileTable>,
}

/// What a manifest says.
pub struct GameSaveManifestView {
    pub id: Seq<char>,
    pub definition: GameDefinitionView,
    pub timestamp: Timestamp,
    pub files: Map<Seq<char>, Map<Seq<char>, GameSaveFileMetadata>>,
}

/// The tables of a manifest as maps.
pub open spec fn table_views(files: StringMap<SaveFileTable>) -> Map<
    Seq<char>,
    Map<Seq<char>, GameSaveFileMetadata>,
> {
    Map::new(|k: Seq<char>| files@.contains_key(k), |k: Seq<char>| files@[k]@)
}

impl View for GameSaveManifest {
    type V = GameSaveManifestView;

    open spec fn view(&self) -> GameSaveManifestView {
        GameSaveManifestView {
            id: self.id@,
            definition: self.definition@,
            timestamp: self.timestamp,
            files: table_views(self.files),
        }
    }
}

/// Where the manifest of a game lies in the repository.
pub open spec fn repository_manifest_path_of(game: Seq<char>) -> Seq<char> {
    relative_joined(game, "manifest.toml"@)
}

/// Where the synced manifest of a game lies on this device, under the data
/// directory.
pub open spec fn synced_manifest_path_of(data_dir: Seq<char>, game: Seq<char>) -> Seq<char> {
    path_joined(path_joined(data_dir, game), "manifest.toml"@)
}

/// Where the manifest of a game lies in the repository.
pub fn repository_manifest_path(game: &str) -> (r: String)
    ensures
        r@ == repository_manifest_path_of(game@),
{
    relative_join(game, "manifest.toml")
}

/// Where the synced manifest of a game lies on this device.
pub fn synced_manifest_path(data_dir: &str, game: &str) -> (r: String)
    ensures
        r@ == synced_manifest_path_of(data_dir@, game@),
{
    let directory = path_join(data_dir, game);
    path_join(directory.as_str(), "manifest.toml")
}

/// Whether two collections of tables list the same declared paths and, under
/// each, the same files with the same metadata, all in the same order.
pub open spec fn same_tables(a: StringMap<SaveFileTable>, b: StringMap<SaveFileTable>) -> bool {
    &&& a.order() == b.order()
    &&& a.items().len() == b.items().len()
    &&& forall|i: int|
        0 <= i < a.items().len() ==> (#[trigger] a.items()[i]).order() == b.items()[i].order()
            && a.items()[i].items() == b.items()[i].items() && a.items()[i]@ == b.items()[i]@
}

/// Tables that list the same as the given ones.
pub fn clone_tables(files: &StringMap<SaveFileTable>) -> (r: StringMap<SaveFileTable>)
    ensures
        files.wf(),
        r.wf(),
        same_tables(r, *files),
        table_views(r) == table_views(*files),
{
    let n = files.len();
    let mut r: StringMap<SaveFileTable> = StringMap::new();
    let mut i: usize = 0;
    while i < n
        invariant
            i <= n,
            n == files.order().len(),
            files.wf(),
            r.wf(),
            r.order() == files.order().subrange(0, i as int),
            r.items().len() == i,
            forall|j: int|
                0 <= j < i ==> (#[trigger] r.items()[j]).order() == files.items()[j].order()
                    && r.items()[j].items() == files.items()[j].items() && r.items()[j]@
                    == files.items()[j]@,
        decreases n - i,
    {
        proof {
            files.lemma_wf();
            r.lemma_wf();
            let k = files.order()[i as int];
            if r.order().contains(k) {
                let j = r.order().index_of(k);
                assert(files.order()[j] == k);
            }
        }
        let table = files.value(i).duplicate();
        r.insert(files.key(i).clone(), table);
        proof {
            assert(r.order() =~= files.order().subrange(0, i + 1));
        }
        i += 1;
    }
    proof {
        files.lemma_wf();
        r.lemma_wf();
        assert(r.order() =~= files.order());
        assert(table_views(r) =~= table_views(*files)) by {
            assert forall|k: Seq<char>| r@.contains_key(k) implies #[trigger] r@[k]@ == files@[k]@ by {
                let j = r.order().index_of(k);
                assert(r.order()[j] == k);
                assert(files.order()[j] == k);
                assert(r@[r.order()[j]] == r.items()[j]);
            }
        }
    }
    r
}

impl GameSaveManifest {
    /// The same version with another time: what a device records when it has
    /// taken over the version.
    pub fn restamped(&self, timestamp: Timestamp) -> (r: GameSaveManifest)
        ensures
            r@ == (GameSaveManifestView { timestamp: timestamp, ..self@ }),
            same_tables(r.files, self.files),
    {
        GameSaveManifest {
            id: self.id.clone(),
            definition: self.definition.clone(),
            timestamp,
            files: clone_tables(&self.files),
        }
    }
}

} // verus!
