//! Synchronisation of one game: comparing the local files, the last synced
//! state and the repository's state, and deciding which way the saves go.

use vstd::prelude::*;
use vstd::string::*;

pub mod conflict;
pub mod effects;
pub mod laws;
pub mod reach;
pub mod snapshot;
pub mod transfer;

use crate::commands::sync::conflict::{
    conflict_message, conflict_prompt, latest_modification, latest_of, message_for, prompt_at,
    ConflictPrompt,
};
use crate::commands::sync::transfer::{
    all_declared, apply_steps, entry_views, is_first_undeclared, is_version_text,
    option_id, publish_steps, published_files, step_views,
    sync_game_from_repository, sync_game_to_repository, unstamped, TransferPlan,
};
use crate::games::definition::GameDefinition;
use crate::games::manifest::{
    same_tables, GameSaveFileMetadata, GameSaveManifest, GameSaveManifestView, SaveFileTable,
    Timestamp,
};
use crate::utils::time::shown_offset;
use crate::games::paths::{
    normal_path, normalized, option_text, path_error_text, resolution, rewrite_path, PathError,
    PathErrorKind,
};
use crate::utils::paths::{local_path_of, relative_to_path};
use crate::utils::string_map::StringMap;

verus! {

/// A save file found under a declared path: the declared path, the file's path
/// relative to the resolved declared path, and its metadata.
#[derive(Debug)]
pub struct ResolvedSaveFile {
    pub path: String,
    pub file: String,
    pub metadata: GameSaveFileMetadata,
}

/// What a resolved save file says.
pub struct ResolvedSaveFileView {
    pub path: Seq<char>,
    pub file: Seq<char>,
    pub metadata: GameSaveFileMetadata,
}

impl View for ResolvedSaveFile {
    type V = ResolvedSaveFileView;

    open spec fn view(&self) -> ResolvedSaveFileView {
        ResolvedSaveFileView { path: self.path@, file: self.file@, metadata: self.metadata }
    }
}

/// What the operator asked for: one game or all of them, and whether to only
/// report what would be done.
#[derive(Debug)]
pub struct SyncArgs {
    pub game: Option<String>,
    pub dry_run: bool,
}

/// Why the synchronisation of a game failed before anything was transferred.
#[derive(Debug)]
pub enum SyncError {
    /// A declared path could not be resolved.
    Path(PathError),
    /// Something under a declared path is neither a file nor a directory.
    UnsupportedEntry { path: String },
    /// The local time could not be determined.
    LocalTimeUnavailable,
    /// The repository's manifest names a version whose identifier does not
    /// have the form of one.
    MalformedVersion { id: String },
    /// The version identifier drawn for a publish is the one that the
    /// repository's manifest names already.
    VersionNotFresh,
    /// A file to apply lies under none of the declared paths.
    OutsideDeclaredPaths { path: String },
}

/// What a failure is shown as.
pub open spec fn sync_error_text(error: SyncError) -> Seq<char> {
    match error {
        SyncError::Path(e) => path_error_text(e.kind, e.path@, e.expanded@),
        SyncError::UnsupportedEntry { path } => "save path "@ + path@
            + " is not a file or directory"@,
        SyncError::LocalTimeUnavailable => "The system's UTC offset could not be determined"@,
        SyncError::MalformedVersion { id } => "version "@ + id@ + " is not a version identifier"@,
        SyncError::VersionNotFresh => "the new version identifier is already in use"@,
        SyncError::OutsideDeclaredPaths { path } => "save file "@ + path@
            + " lies under no declared path"@,
    }
}

impl SyncError {
    /// The text that shows the failure.
    pub fn message(&self) -> (r: String)
        ensures
            r@ == sync_error_text(*self),
    {
        match self {
            SyncError::Path(e) => e.message(),
            SyncError::UnsupportedEntry { path } => {
                let mut text = String::from_str("save path ");
                text.append(path.as_str());
                text.append(" is not a file or directory");
                text
            },
            SyncError::LocalTimeUnavailable => String::from_str(
                "The system's UTC offset could not be determined",
            ),
            SyncError::MalformedVersion { id } => {
                let mut text = String::from_str("version ");
                text.append(id.as_str());
                text.append(" is not a version identifier");
                text
            },
            SyncError::VersionNotFresh => String::from_str(
                "the new version identifier is already in use",
            ),
            SyncError::OutsideDeclaredPaths { path } => {
                let mut text = String::from_str("save file ");
                text.append(path.as_str());
                text.append(" lies under no declared path");
                text
            },
        }
    }
}

/// Save files by their absolute local path.
pub type ResolvedSaveFiles = StringMap<ResolvedSaveFile>;

/// Save files by their absolute local path, as a mathematical map.
pub type FileSet = Map<Seq<char>, ResolvedSaveFileView>;

/// Two sets of save files are equal when they hold the same paths and each
/// path has the same metadata on both sides.
pub open spec fn files_equal(left: FileSet, right: FileSet) -> bool {
    &&& left.dom() =~= right.dom()
    &&& forall|k: Seq<char>| #[trigger] left.contains_key(k) ==> left[k].metadata == right[k].metadata
}

/// The local path that identifies the file `relative` under the resolved
/// declared path `root`, in normal form.
pub open spec fn local_key(root: Seq<char>, relative: Seq<char>) -> Seq<char> {
    normalized(local_path_of(relative, root))
}

/// The resolved form of each declared path, or the first declared path that
/// cannot be resolved with the reason.
pub open spec fn resolve_all(paths: Seq<Seq<char>>, home: Option<Seq<char>>) -> Result<
    Seq<Seq<char>>,
    (Seq<char>, PathErrorKind),
>
    decreases paths.len(),
{
    if paths.len() == 0 {
        Ok(Seq::<Seq<char>>::empty())
    } else {
        match resolve_all(paths.drop_last(), home) {
            Err(e) => Err(e),
            Ok(roots) => match resolution(paths.last(), home) {
                Ok(root) => Ok(roots.push(root)),
                Err(kind) => Err((paths.last(), kind)),
            },
        }
    }
}

/// `acc` with the files of one declared path added: each file under its local
/// path, a later file replacing an earlier one with the same local path.
pub open spec fn with_table(
    acc: FileSet,
    declared: Seq<char>,
    root: Seq<char>,
    names: Seq<Seq<char>>,
    metadata: Seq<GameSaveFileMetadata>,
) -> FileSet
    decreases names.len(),
{
    if names.len() == 0 || names.len() != metadata.len() {
        acc
    } else {
        with_table(acc, declared, root, names.drop_last(), metadata.drop_last()).insert(
            local_key(root, names.last()),
            ResolvedSaveFileView { path: declared, file: names.last(), metadata: metadata.last() },
        )
    }
}

/// The files of a manifest by local path: the tables of its declared paths
/// added in order, each under the resolved form of its declared path.
pub open spec fn manifest_file_set(
    declared: Seq<Seq<char>>,
    tables: Seq<SaveFileTable>,
    roots: Seq<Seq<char>>,
) -> FileSet
    decreases declared.len(),
{
    if declared.len() == 0 || declared.len() != tables.len() || declared.len() != roots.len() {
        Map::<Seq<char>, ResolvedSaveFileView>::empty()
    } else {
        with_table(
            manifest_file_set(declared.drop_last(), tables.drop_last(), roots.drop_last()),
            declared.last(),
            roots.last(),
            tables.last().order(),
            tables.last().items(),
        )
    }
}

/// Which way the saves of a game have to go.
#[derive(Clone, Copy, Debug, PartialEq, Eq, Structural)]
pub enum SyncDirection {
    /// The local saves are stored in the repository.
    ToRepository,
    /// The repository's saves are applied locally.
    FromRepository,
    /// Nothing is transferred.
    DoNothing,
}

/// Why the state of a game needs an answer from the operator.
#[derive(Clone, Copy, Debug, PartialEq, Eq, Structural)]
pub enum ConflictReason {
    /// The repository holds the game, and this device has never synced it.
    NeverSynced,
    /// Both the local saves and the repository changed since the last sync.
    BothChanged,
}

/// What comparing the three states of a game gives.
#[derive(Clone, Copy, Debug, PartialEq, Eq, Structural)]
pub enum SyncDecision {
    /// The direction is settled.
    Transfer(SyncDirection),
    /// The operator has to choose.
    Conflict(ConflictReason),
}

/// The decision for a game, from its local files, the files of the repository
/// manifest if there is one, and the files of the synced manifest if there is
/// one.
pub open spec fn decision(local: FileSet, repository: Option<FileSet>, synced: Option<FileSet>) -> SyncDecision {
    match repository {
        None => SyncDecision::Transfer(SyncDirection::ToRepository),
        Some(repository_files) => match synced {
            None => SyncDecision::Conflict(ConflictReason::NeverSynced),
            Some(synced_files) => {
                let local_changed = !files_equal(local, synced_files);
                let repository_changed = !files_equal(synced_files, repository_files);
                if local_changed && repository_changed {
                    SyncDecision::Conflict(ConflictReason::BothChanged)
                } else if local_changed {
                    SyncDecision::Transfer(SyncDirection::ToRepository)
                } else if repository_changed {
                    SyncDecision::Transfer(SyncDirection::FromRepository)
                } else {
                    SyncDecision::Transfer(SyncDirection::DoNothing)
                }
            },
        },
    }
}

/// Every set of save files equals itself.
pub proof fn lemma_files_equal_reflexive(files: FileSet)
    ensures
        files_equal(files, files),
{
}

/// Whether two sets of save files are equal does not depend on which is taken
/// first.
pub proof fn lemma_files_equal_symmetric(left: FileSet, right: FileSet)
    ensures
        files_equal(left, right) == files_equal(right, left),
{
    if files_equal(left, right) {
        assert forall|k: Seq<char>| #[trigger] right.contains_key(k) implies right[k].metadata
            == left[k].metadata by {
            assert(left.dom().contains(k));
            assert(left.contains_key(k));
        }
    }
    if files_equal(right, left) {
        assert forall|k: Seq<char>| #[trigger] left.contains_key(k) implies left[k].metadata
            == right[k].metadata by {
            assert(right.dom().contains(k));
            assert(right.contains_key(k));
        }
    }
}

/// Two sets of save files that equal a third are equal.
pub proof fn lemma_files_equal_transitive(first: FileSet, second: FileSet, third: FileSet)
    requires
        files_equal(first, second),
        files_equal(second, third),
    ensures
        files_equal(first, third),
{
    assert forall|k: Seq<char>| #[trigger] first.contains_key(k) implies first[k].metadata
        == third[k].metadata by {
        assert(second.dom().contains(k));
        assert(second.contains_key(k));
    }
}

/// Two sets of save files are equal exactly when each path of one is a path of
/// the other and has the same modification time and the same size there.
pub proof fn lemma_files_equal_means(left: FileSet, right: FileSet)
    ensures
        files_equal(left, right) <==> (forall|k: Seq<char>|
            left.contains_key(k) == right.contains_key(k)) && (forall|k: Seq<char>|
            left.contains_key(k) ==> left[k].metadata.modified == right[k].metadata.modified
                && left[k].metadata.size == right[k].metadata.size),
{
    if files_equal(left, right) {
        assert forall|k: Seq<char>| left.contains_key(k) == right.contains_key(k) by {
            assert(left.dom().contains(k) == right.dom().contains(k));
        }
    }
    if (forall|k: Seq<char>| left.contains_key(k) == right.contains_key(k)) {
        assert(left.dom() =~= right.dom());
    }
}

/// The decision follows the table: without a repository manifest the local
/// saves are published; with one and without a synced manifest the operator
/// has to choose; with both, nothing changed gives no transfer, a local change
/// alone a publish, a change of the repository alone an apply, and both a
/// conflict.
pub proof fn lemma_decision_table(local: FileSet, repository: FileSet, synced: FileSet)
    ensures
        forall|s: Option<FileSet>| #[trigger]
            decision(local, None, s) == SyncDecision::Transfer(SyncDirection::ToRepository),
        decision(local, Some(repository), None) == SyncDecision::Conflict(
            ConflictReason::NeverSynced,
        ),
        decision(local, Some(repository), Some(synced)) == (match (
            !files_equal(local, synced),
            !files_equal(synced, repository),
        ) {
            (false, false) => SyncDecision::Transfer(SyncDirection::DoNothing),
            (true, false) => SyncDecision::Transfer(SyncDirection::ToRepository),
            (false, true) => SyncDecision::Transfer(SyncDirection::FromRepository),
            (true, true) => SyncDecision::Conflict(ConflictReason::BothChanged),
        }),
{
}

/// The file set of an optional collection of save files.
pub open spec fn option_files(files: Option<&ResolvedSaveFiles>) -> Option<FileSet> {
    match files {
        Some(f) => Some(f.deep()),
        None => None,
    }
}

/// Whether two collections of save files hold the same paths with the same
/// metadata.
pub fn save_files_equal(left: &ResolvedSaveFiles, right: &ResolvedSaveFiles) -> (r: bool)
    ensures
        r == files_equal(left.deep(), right.deep()),
{
    let n = left.len();
    if n != right.len() {
        proof {
            if left.deep().dom() =~= right.deep().dom() {
                assert(left@.dom() =~= left.deep().dom());
                assert(right@.dom() =~= right.deep().dom());
            }
        }
        return false;
    }
    proof {
        left.lemma_wf();
        right.lemma_wf();
    }
    let mut i: usize = 0;
    while i < n
        invariant
            i <= n,
            n == left.order().len(),
            left.wf(),
            right.wf(),
            forall|j: int|
                0 <= j < i ==> right@.contains_key(#[trigger] left.order()[j])
                    && right@[left.order()[j]]@.metadata == left.items()[j]@.metadata,
        decreases n - i,
    {
        let key = left.key(i);
        let entry = left.value(i);
        proof {
            left.lemma_wf();
        }
        match right.get(key.as_str()) {
            Some(other) => {
                if !(other.metadata.modified == entry.metadata.modified && other.metadata.size
                    == entry.metadata.size) {
                    assert(left.deep().contains_key(key@));
                    assert(left.deep()[key@].metadata != right.deep()[key@].metadata);
                    return false;
                }
            },
            None => {
                assert(left.deep().dom().contains(key@));
                assert(!right.deep().dom().contains(key@));
                return false;
            },
        }
        i += 1;
    }
    proof {
        left.lemma_wf();
        right.lemma_wf();
        assert(left@.dom().subset_of(right@.dom())) by {
            assert forall|k: Seq<char>| left@.dom().contains(k) implies right@.dom().contains(k) by {
                let j = left.order().index_of(k);
                assert(left.order()[j] == k);
            }
        }
        vstd::set_lib::lemma_subset_equality(left@.dom(), right@.dom());
        assert(left.deep().dom() =~= left@.dom());
        assert(right.deep().dom() =~= right@.dom());
        assert forall|k: Seq<char>| #[trigger] left.deep().contains_key(k) implies left.deep()[k].metadata
            == right.deep()[k].metadata by {
            let j = left.order().index_of(k);
            assert(left.order()[j] == k);
        }
    }
    true
}

/// The files of a manifest by their absolute local path, for comparison with the
/// local files. Fails with the first declared path that cannot be resolved.
pub fn get_manifest_files(manifest: &GameSaveManifest, home: Option<&str>) -> (r: Result<
    ResolvedSaveFiles,
    PathError,
>)
    ensures
        match r {
            Ok(files) => match resolve_all(manifest.files.order(), option_text(home)) {
                Ok(roots) => files.deep() == manifest_file_set(
                    manifest.files.order(),
                    manifest.files.items(),
                    roots,
                ),
                Err(_) => false,
            },
            Err(e) => resolve_all(manifest.files.order(), option_text(home)) == Err::<
                Seq<Seq<char>>,
                (Seq<char>, PathErrorKind),
            >((e.path@, e.kind)),
        },
{
    let mut files: ResolvedSaveFiles = StringMap::new();
    let buckets = manifest.files.len();
    let ghost declared = manifest.files.order();
    let ghost tables = manifest.files.items();
    let ghost h = option_text(home);
    let ghost mut roots: Seq<Seq<char>> = Seq::empty();
    let mut i: usize = 0;
    assert(declared.subrange(0, 0) =~= Seq::<Seq<char>>::empty());
    assert(files.deep() =~= Map::<Seq<char>, ResolvedSaveFileView>::empty());
    while i < buckets
        invariant
            i <= buckets,
            buckets == declared.len(),
            buckets == tables.len(),
            declared == manifest.files.order(),
            tables == manifest.files.items(),
            h == option_text(home),
            roots.len() == i,
            resolve_all(declared.subrange(0, i as int), h) == Ok::<
                Seq<Seq<char>>,
                (Seq<char>, PathErrorKind),
            >(roots),
            files.deep() == manifest_file_set(
                declared.subrange(0, i as int),
                tables.subrange(0, i as int),
                roots,
            ),
        decreases buckets - i,
    {
        let declared_path = manifest.files.key(i);
        let table = manifest.files.value(i);
        let ghost declared_next = declared.subrange(0, i + 1);
        let ghost tables_next = tables.subrange(0, i + 1);
        assert(declared_next.drop_last() =~= declared.subrange(0, i as int));
        assert(tables_next.drop_last() =~= tables.subrange(0, i as int));
        let root = match rewrite_path(declared_path.as_str(), home) {
            Ok(root) => root,
            Err(e) => {
                proof {
                    lemma_resolve_all_fails(declared, h, i as int);
                }
                return Err(e);
            },
        };
        let ghost roots_next = roots.push(root@);
        assert(roots_next.drop_last() =~= roots);
        let entries = table.len();
        let ghost names = table.order();
        let ghost metadata = table.items();
        let ghost acc = files.deep();
        let mut j: usize = 0;
        assert(names.subrange(0, 0) =~= Seq::<Seq<char>>::empty());
        while j < entries
            invariant
                j <= entries,
                entries == names.len(),
                entries == metadata.len(),
                names == table.order(),
                metadata == table.items(),
                files.deep() == with_table(
                    acc,
                    declared_path@,
                    root@,
                    names.subrange(0, j as int),
                    metadata.subrange(0, j as int),
                ),
            decreases entries - j,
        {
            let file = table.key(j);
            let file_metadata = *table.value(j);
            let ghost names_next = names.subrange(0, j + 1);
            let ghost metadata_next = metadata.subrange(0, j + 1);
            assert(names_next.drop_last() =~= names.subrange(0, j as int));
            assert(metadata_next.drop_last() =~= metadata.subrange(0, j as int));
            let located = relative_to_path(file.as_str(), root.as_str());
            let key = normal_path(located.as_str());
            let entry = ResolvedSaveFile {
                path: declared_path.clone(),
                file: file.clone(),
                metadata: file_metadata,
            };
            let ghost before = files.deep();
            files.insert(key, entry);
            assert(files.deep() =~= before.insert(key@, entry@));
            j += 1;
        }
        assert(names.subrange(0, entries as int) =~= names);
        assert(metadata.subrange(0, entries as int) =~= metadata);
        proof {
            roots = roots_next;
        }
        i += 1;
    }
    assert(declared.subrange(0, buckets as int) =~= declared);
    assert(tables.subrange(0, buckets as int) =~= tables);
    Ok(files)
}

/// When the declared paths before place `i` resolve and the one at `i` does
/// not, resolving all of them fails with that path and its reason.
pub proof fn lemma_resolve_all_fails(paths: Seq<Seq<char>>, home: Option<Seq<char>>, i: int)
    requires
        0 <= i < paths.len(),
        resolve_all(paths.subrange(0, i), home) is Ok,
        resolution(paths[i], home) is Err,
    ensures
        resolve_all(paths, home) == Err::<Seq<Seq<char>>, (Seq<char>, PathErrorKind)>(
            (paths[i], resolution(paths[i], home)->Err_0),
        ),
    decreases paths.len(),
{
    if i == paths.len() - 1 {
        assert(paths.drop_last() =~= paths.subrange(0, i));
    } else {
        assert(paths.drop_last().subrange(0, i) =~= paths.subrange(0, i));
        lemma_resolve_all_fails(paths.drop_last(), home, i);
    }
}

/// Decides which way the saves of a game go, from the local files, the files
/// of the repository's manifest and the files of the manifest last synced on
/// this device.
pub fn decide(
    local: &ResolvedSaveFiles,
    repository: Option<&ResolvedSaveFiles>,
    synced: Option<&ResolvedSaveFiles>,
) -> (d: SyncDecision)
    ensures
        d == decision(local.deep(), option_files(repository), option_files(synced)),
{
    match repository {
        None => SyncDecision::Transfer(SyncDirection::ToRepository),
        Some(repository_files) => match synced {
            None => SyncDecision::Conflict(ConflictReason::NeverSynced),
            Some(synced_files) => {
                let local_changed = !save_files_equal(local, synced_files);
                let repository_changed = !save_files_equal(synced_files, repository_files);
                if local_changed && repository_changed {
                    SyncDecision::Conflict(ConflictReason::BothChanged)
                } else if local_changed {
                    SyncDecision::Transfer(SyncDirection::ToRepository)
                } else if repository_changed {
                    SyncDecision::Transfer(SyncDirection::FromRepository)
                } else {
                    SyncDecision::Transfer(SyncDirection::DoNothing)
                }
            },
        },
    }
}

/// A manifest together with its files by local path.
pub struct ManifestState {
    pub files: ResolvedSaveFiles,
    pub manifest: GameSaveManifest,
}

/// The files of an optional manifest state.
pub open spec fn state_files(state: Option<&ManifestState>) -> Option<FileSet> {
    match state {
        Some(s) => Some(s.files.deep()),
        None => None,
    }
}

/// The commit time of an optional manifest state.
pub open spec fn state_time(state: Option<&ManifestState>) -> Option<Timestamp> {
    match state {
        Some(s) => Some(s.manifest.timestamp),
        None => None,
    }
}

/// The manifest of an optional manifest state.
pub open spec fn state_manifest(state: Option<&ManifestState>) -> Option<&GameSaveManifest> {
    match state {
        Some(s) => Some(&s.manifest),
        None => None,
    }
}

/// Where the comparison of a game's three states leaves the synchronisation.
pub enum SyncStage {
    /// The direction is settled.
    Settled { direction: SyncDirection },
    /// The operator has to answer the prompt; the answer gives the direction.
    Ask { prompt: ConflictPrompt },
}

/// Resolves the files of a manifest and keeps them with the manifest.
pub fn load_state(manifest: GameSaveManifest, home: Option<&str>) -> (r: Result<
    ManifestState,
    PathError,
>)
    ensures
        match r {
            Ok(state) => state.manifest == manifest && (match resolve_all(
                manifest.files.order(),
                option_text(home),
            ) {
                Ok(roots) => state.files.deep() == manifest_file_set(
                    manifest.files.order(),
                    manifest.files.items(),
                    roots,
                ),
                Err(_) => false,
            }),
            Err(e) => resolve_all(manifest.files.order(), option_text(home)) == Err::<
                Seq<Seq<char>>,
                (Seq<char>, PathErrorKind),
            >((e.path@, e.kind)),
        },
{
    match get_manifest_files(&manifest, home) {
        Ok(files) => Ok(ManifestState { files, manifest }),
        Err(e) => Err(e),
    }
}

/// Compares the three states of a game. Where the comparison settles the
/// direction, that direction is the result. Otherwise the result is the prompt
/// for the operator: it says what happened, and shows the time of the latest
/// local modification and the time of the repository's commit, both at the
/// local offset, or at the offset stored with the repository's time where the
/// local offset cannot be determined.
pub fn sync_game(
    game: &str,
    local_files: &ResolvedSaveFiles,
    repository_state: Option<&ManifestState>,
    synced_state: Option<&ManifestState>,
) -> (r: SyncStage)
    ensures
        match decision(local_files.deep(), state_files(repository_state), state_files(synced_state)) {
            SyncDecision::Transfer(settled) => r matches SyncStage::Settled { direction }
                && direction == settled,
            SyncDecision::Conflict(reason) => r matches SyncStage::Ask { prompt }
                && repository_state is Some && exists|local: Option<i32>|
                prompt@ == prompt_at(
                    message_for(game@, reason, state_time(synced_state)),
                    latest_of(entry_views(*local_files)),
                    repository_state->Some_0.manifest.timestamp,
                    #[trigger] shown_offset(
                        local,
                        repository_state->Some_0.manifest.timestamp.offset_seconds,
                    ),
                ),
        },
{
    let repository = match repository_state {
        Some(state) => state,
        None => {
            return SyncStage::Settled { direction: SyncDirection::ToRepository };
        },
    };
    let synced_files: Option<&ResolvedSaveFiles> = match synced_state {
        Some(state) => Some(&state.files),
        None => None,
    };
    match decide(local_files, Some(&repository.files), synced_files) {
        SyncDecision::Transfer(direction) => SyncStage::Settled { direction },
        SyncDecision::Conflict(reason) => {
            let synced: Option<Timestamp> = match synced_state {
                Some(state) => Some(state.manifest.timestamp),
                None => None,
            };
            let message = conflict_message(game, reason, synced);
            let latest = latest_modification(local_files);
            let prompt = conflict_prompt(message.as_str(), latest, repository.manifest.timestamp);
            SyncStage::Ask { prompt }
        },
    }
}

/// Plans the transfer for a direction: a publish towards the repository, an
/// apply from it, or nothing. A publish succeeds where the repository has no
/// manifest yet, fails where its manifest names a version whose identifier
/// does not have the form of one, and otherwise succeeds unless the identifier
/// drawn is the one the manifest names.
pub fn transfer(
    direction: SyncDirection,
    definition: &GameDefinition,
    local_files: &ResolvedSaveFiles,
    repository_state: Option<&ManifestState>,
    home: Option<&str>,
    args: &SyncArgs,
) -> (r: Result<Option<TransferPlan>, SyncError>)
    requires
        direction == SyncDirection::FromRepository ==> repository_state is Some,
    ensures
        match direction {
            SyncDirection::DoNothing => r matches Ok(None),
            SyncDirection::ToRepository => {
                let previous = option_id(state_manifest(repository_state));
                &&& match previous {
                    None => r matches Ok(Some(_)),
                    Some(old) => if is_version_text(old) {
                        r matches Ok(Some(_)) || r matches Err(SyncError::VersionNotFresh)
                    } else {
                        r matches Err(SyncError::MalformedVersion { id: shown }) && shown@ == old
                    },
                }
                &&& r matches Ok(Some(plan)) ==> {
                    &&& is_version_text(plan.manifest@.id)
                    &&& previous matches Some(old) ==> old != plan.manifest@.id
                    &&& plan.dry_run == args.dry_run
                    &&& plan.manifest@ == (GameSaveManifestView {
                        id: plan.manifest@.id,
                        definition: definition@,
                        timestamp: unstamped(),
                        files: published_files(entry_views(*local_files)),
                    })
                    &&& step_views(plan.steps@) == publish_steps(
                        definition@.name,
                        plan.manifest@.id,
                        local_files.order(),
                        entry_views(*local_files),
                        previous,
                    )
                }
            },
            SyncDirection::FromRepository => {
                let state = repository_state->Some_0;
                match resolve_all(state.manifest@.definition.paths, option_text(home)) {
                    Err(failure) => r matches Err(SyncError::Path(e)) && failure == (
                        e.path@,
                        e.kind,
                    ),
                    Ok(roots) => if all_declared(roots, state.files.order()) {
                        r matches Ok(Some(plan)) && {
                            &&& plan.dry_run == args.dry_run
                            &&& plan.manifest@ == state.manifest@
                            &&& same_tables(plan.manifest.files, state.manifest.files)
                            &&& step_views(plan.steps@) == apply_steps(
                                state.manifest@.definition.name,
                                state.manifest@.id,
                                roots,
                                state.files.order(),
                                entry_views(state.files),
                            )
                        }
                    } else {
                        r matches Err(SyncError::OutsideDeclaredPaths { path }) && exists|i: int|
                            is_first_undeclared(roots, state.files.order(), i) && path@
                                == #[trigger] state.files.order()[i]
                    },
                }
            },
        },
{
    match direction {
        SyncDirection::DoNothing => Ok(None),
        SyncDirection::ToRepository => {
            let previous: Option<&GameSaveManifest> = match repository_state {
                Some(state) => Some(&state.manifest),
                None => None,
            };
            match sync_game_to_repository(definition, local_files, previous, args) {
                Ok(plan) => Ok(Some(plan)),
                Err(e) => Err(e),
            }
        },
        SyncDirection::FromRepository => {
            match repository_state {
                Some(state) => match sync_game_from_repository(
                    &state.manifest,
                    &state.files,
                    home,
                    args,
                ) {
                    Ok(plan) => Ok(Some(plan)),
                    Err(e) => Err(e),
                },
                None => Ok(None),
            }
        },
    }
}

/// The games to synchronise, in order: the one that was asked for, or every
/// game defined in the repository.
pub fn sync(args: &SyncArgs, definitions: &Vec<String>) -> (games: Vec<String>)
    ensures
        match args.game {
            Some(game) => games.len() == 1 && games@[0]@ == game@,
            None => games.len() == definitions.len() && forall|i: int|
                0 <= i < games.len() ==> (#[trigger] games@[i])@ == definitions@[i]@,
        },
{
    let mut games: Vec<String> = Vec::new();
    match &args.game {
        Some(game) => {
            games.push(game.clone());
        },
        None => {
            let mut i: usize = 0;
            while i < definitions.len()
                invariant
                    i <= definitions.len(),
                    games.len() == i,
                    forall|j: int| 0 <= j < i ==> (#[trigger] games@[j])@ == definitions@[j]@,
                decreases definitions.len() - i,
            {
                games.push(definitions[i].clone());
                i += 1;
            }
        },
    }
    games
}

/// How the sync of one game ended: the game, and what went wrong if it
/// failed.
#[derive(Debug)]
pub struct GameOutcome {
    pub game: String,
    pub failure: Option<String>,
}

/// What an outcome says.
pub struct GameOutcomeView {
    pub game: Seq<char>,
    pub failure: Option<Seq<char>>,
}

impl View for GameOutcome {
    type V = GameOutcomeView;

    open spec fn view(&self) -> GameOutcomeView {
        GameOutcomeView {
            game: self.game@,
            failure: match self.failure {
                Some(text) => Some(text@),
                None => None,
            },
        }
    }
}

/// What a list of outcomes says, in order.
pub open spec fn outcome_views(outcomes: Seq<GameOutcome>) -> Seq<GameOutcomeView> {
    Seq::new(outcomes.len(), |i: int| outcomes[i]@)
}

/// The outcomes that are failures, in order.
pub open spec fn failures_of(outcomes: Seq<GameOutcomeView>) -> Seq<GameOutcomeView>
    decreases outcomes.len(),
{
    if outcomes.len() == 0 {
        Seq::<GameOutcomeView>::empty()
    } else if outcomes.last().failure is Some {
        failures_of(outcomes.drop_last()).push(outcomes.last())
    } else {
        failures_of(outcomes.drop_last())
    }
}

/// The game to sync next when the games before it have ended as `outcomes`
/// says: the game after them, whether they succeeded or failed. A game that
/// fails is left, and the games after it are synced all the same.
pub fn next_game<'a>(games: &'a Vec<String>, outcomes: &Vec<GameOutcome>) -> (r: Option<&'a String>)
    ensures
        match r {
            Some(game) => outcomes.len() < games.len() && *game == games@[outcomes.len() as int],
            None => outcomes.len() >= games.len(),
        },
{
    if outcomes.len() < games.len() {
        Some(&games[outcomes.len()])
    } else {
        None
    }
}

/// What a run over the games came to: it succeeded when no game failed, and
/// otherwise it failed with the games that failed and what went wrong with
/// each, in order.
pub fn report(outcomes: &Vec<GameOutcome>) -> (r: Result<(), Vec<GameOutcome>>)
    ensures
        match r {
            Ok(_) => failures_of(outcome_views(outcomes@)).len() == 0,
            Err(failed) => failed.len() > 0 && outcome_views(failed@) == failures_of(
                outcome_views(outcomes@),
            ),
        },
{
    let mut failed: Vec<GameOutcome> = Vec::new();
    let ghost all = outcome_views(outcomes@);
    let mut i: usize = 0;
    assert(all.subrange(0, 0) =~= Seq::<GameOutcomeView>::empty());
    assert(outcome_views(failed@) =~= Seq::<GameOutcomeView>::empty());
    while i < outcomes.len()
        invariant
            i <= outcomes.len(),
            all == outcome_views(outcomes@),
            outcome_views(failed@) == failures_of(all.subrange(0, i as int)),
        decreases outcomes.len() - i,
    {
        let ghost next = all.subrange(0, i + 1);
        assert(next.drop_last() =~= all.subrange(0, i as int));
        assert(next.last() == outcomes@[i as int]@);
        let ghost before = outcome_views(failed@);
        match &outcomes[i].failure {
            Some(text) => {
                let copy = GameOutcome { game: outcomes[i].game.clone(), failure: Some(text.clone()) };
                assert(copy@ == outcomes@[i as int]@);
                failed.push(copy);
                assert(outcome_views(failed@) =~= before.push(outcomes@[i as int]@));
            },
            None => {},
        }
        i += 1;
    }
    assert(all.subrange(0, outcomes.len() as int) =~= all);
    if failed.len() == 0 {
        Ok(())
    } else {
        Err(failed)
    }
}

} // verus!
