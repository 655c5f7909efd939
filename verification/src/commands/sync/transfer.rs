//! The transfers: publishing the local saves as a new version in the
//! repository, and applying the repository's version locally. A transfer is
//! planned as an ordered list of steps; whoever carries it out performs the
//! steps in order and stops at the first that fails.

use vstd::prelude::*;
use vstd::string::*;
use crate::commands::sync::{
    resolve_all, ResolvedSaveFileView, ResolvedSaveFiles, SyncArgs, SyncError,
};
use crate::games::definition::GameDefinition;
use crate::games::manifest::{
    same_tables, table_views, GameSaveFileMetadata, GameSaveManifest, GameSaveManifestView,
    SaveFileTable, Timestamp,
};
use crate::games::paths::{
    covers, normal_path, normalized, option_text, path_covers, rewrite_path, texts,
    PathErrorKind,
};
use crate::utils::paths::{make_path_safe, path_safe, relative_join, relative_joined};
use crate::utils::string_map::StringMap;
use crate::utils::text::to_chars;
use crate::utils::time::now_local;

verus! {

/// One step of a transfer.
#[derive(Debug)]
pub enum TransferStep {
    /// Copy the bytes of a local file to an object of the repository, creating
    /// the directories above the object as needed.
    StoreFile { local: String, object: String },
    /// Stamp the plan's manifest with the current local time: `TransferPlan::stamp`.
    StampManifest,
    /// Write the plan's manifest as the game's manifest in the repository.
    WriteRepositoryManifest,
    /// Write the plan's manifest as the game's synced manifest on this device.
    WriteSyncedManifest,
    /// Remove an object tree of the repository, if it is there.
    RemoveVersion { path: String },
    /// Remove a local file or directory tree, if it is there.
    RemoveLocal { path: String },
    /// Copy the bytes of an object of the repository to a local file, creating
    /// the directories above the file as needed, and set the file's
    /// modification time.
    FetchFile { object: String, local: String, modified: i128 },
}

/// What a step says.
pub enum TransferStepView {
    StoreFile { local: Seq<char>, object: Seq<char> },
    StampManifest,
    WriteRepositoryManifest,
    WriteSyncedManifest,
    RemoveVersion { path: Seq<char> },
    RemoveLocal { path: Seq<char> },
    FetchFile { object: Seq<char>, local: Seq<char>, modified: i128 },
}

impl View for TransferStep {
    type V = TransferStepView;

    open spec fn view(&self) -> TransferStepView {
        match self {
            TransferStep::StoreFile { local, object } => TransferStepView::StoreFile {
                local: local@,
                object: object@,
            },
            TransferStep::StampManifest => TransferStepView::StampManifest,
            TransferStep::WriteRepositoryManifest => TransferStepView::WriteRepositoryManifest,
            TransferStep::WriteSyncedManifest => TransferStepView::WriteSyncedManifest,
            TransferStep::RemoveVersion { path } => TransferStepView::RemoveVersion { path: path@ },
            TransferStep::RemoveLocal { path } => TransferStepView::RemoveLocal { path: path@ },
            TransferStep::FetchFile { object, local, modified } => TransferStepView::FetchFile {
                object: object@,
                local: local@,
                modified: *modified,
            },
        }
    }
}

/// A planned transfer: the manifest it commits and its steps in order. The
/// manifest gets its time when the stamp step is performed, after the files
/// have been copied. A plan made for a dry run is only to be reported.
pub struct TransferPlan {
    pub manifest: GameSaveManifest,
    pub steps: Vec<TransferStep>,
    pub dry_run: bool,
}

/// What the steps of a list say, in order.
pub open spec fn step_views(steps: Seq<TransferStep>) -> Seq<TransferStepView> {
    Seq::new(steps.len(), |i: int| steps[i]@)
}

/// What the files of a collection say, in the collection's order.
pub open spec fn entry_views(files: ResolvedSaveFiles) -> Seq<ResolvedSaveFileView> {
    Seq::new(files.items().len(), |i: int| files.items()[i]@)
}

/// Where the object tree of a version lies in the repository.
pub open spec fn version_path_of(game: Seq<char>, id: Seq<char>) -> Seq<char> {
    relative_joined(game, id)
}

/// Where a file of a version lies in the repository: under the game, the
/// version and the safe name of its declared path.
pub open spec fn object_path_of(
    game: Seq<char>,
    id: Seq<char>,
    declared: Seq<char>,
    file: Seq<char>,
) -> Seq<char> {
    relative_joined(relative_joined(version_path_of(game, id), path_safe(declared)), file)
}

/// The tables a publish records: each file under its declared path and its
/// relative path, a later file replacing an earlier one recorded under the
/// same two.
pub open spec fn published_files(entries: Seq<ResolvedSaveFileView>) -> Map<
    Seq<char>,
    Map<Seq<char>, GameSaveFileMetadata>,
>
    decreases entries.len(),
{
    if entries.len() == 0 {
        Map::empty()
    } else {
        let before = published_files(entries.drop_last());
        let entry = entries.last();
        let table = if before.contains_key(entry.path) {
            before[entry.path]
        } else {
            Map::empty()
        };
        before.insert(entry.path, table.insert(entry.file, entry.metadata))
    }
}

/// One store step for each local file, in order.
pub open spec fn store_steps(
    game: Seq<char>,
    id: Seq<char>,
    locals: Seq<Seq<char>>,
    entries: Seq<ResolvedSaveFileView>,
) -> Seq<TransferStepView> {
    Seq::new(
        locals.len(),
        |i: int|
            TransferStepView::StoreFile {
                local: locals[i],
                object: object_path_of(game, id, entries[i].path, entries[i].file),
            },
    )
}

/// The steps of a publish: every file is stored, then the manifest is stamped,
/// then the repository's manifest is written, then the synced manifest, and
/// last the object tree of the version that was current before is removed.
pub open spec fn publish_steps(
    game: Seq<char>,
    id: Seq<char>,
    locals: Seq<Seq<char>>,
    entries: Seq<ResolvedSaveFileView>,
    previous: Option<Seq<char>>,
) -> Seq<TransferStepView> {
    store_steps(game, id, locals, entries) + seq![
        TransferStepView::StampManifest,
        TransferStepView::WriteRepositoryManifest,
        TransferStepView::WriteSyncedManifest,
    ] + (match previous {
        Some(old) => seq![TransferStepView::RemoveVersion { path: version_path_of(game, old) }],
        None => Seq::<TransferStepView>::empty(),
    })
}

/// One removal for each resolved declared path that is not itself one of the
/// files to apply, in order.
pub open spec fn removal_steps(roots: Seq<Seq<char>>, present: Set<Seq<char>>) -> Seq<
    TransferStepView,
>
    decreases roots.len(),
{
    if roots.len() == 0 {
        Seq::<TransferStepView>::empty()
    } else if present.contains(normalized(roots.last())) {
        removal_steps(roots.drop_last(), present)
    } else {
        removal_steps(roots.drop_last(), present).push(
            TransferStepView::RemoveLocal { path: normalized(roots.last()) },
        )
    }
}

/// One fetch step for each file to apply, in order.
pub open spec fn fetch_steps(
    game: Seq<char>,
    id: Seq<char>,
    locals: Seq<Seq<char>>,
    entries: Seq<ResolvedSaveFileView>,
) -> Seq<TransferStepView> {
    Seq::new(
        locals.len(),
        |i: int|
            TransferStepView::FetchFile {
                object: object_path_of(game, id, entries[i].path, entries[i].file),
                local: locals[i],
                modified: entries[i].metadata.modified,
            },
    )
}

/// The steps of an apply: what lies under the declared paths is removed, then
/// every file of the version is fetched, then the manifest is stamped and
/// written as the synced manifest.
pub open spec fn apply_steps(
    game: Seq<char>,
    id: Seq<char>,
    roots: Seq<Seq<char>>,
    locals: Seq<Seq<char>>,
    entries: Seq<ResolvedSaveFileView>,
) -> Seq<TransferStepView> {
    removal_steps(roots, locals.to_set()) + fetch_steps(game, id, locals, entries) + seq![
        TransferStepView::StampManifest,
        TransferStepView::WriteSyncedManifest,
    ]
}

/// Where the object tree of a version lies in the repository.
pub fn version_path(game: &str, id: &str) -> (r: String)
    ensures
        r@ == version_path_of(game@, id@),
{
    relative_join(game, id)
}

/// Where a file of a version lies in the repository.
pub fn object_path(game: &str, id: &str, declared: &str, file: &str) -> (r: String)
    ensures
        r@ == object_path_of(game@, id@, declared@, file@),
{
    let version = relative_join(game, id);
    let safe = make_path_safe(declared);
    let bucket = relative_join(version.as_str(), safe.as_str());
    relative_join(bucket.as_str(), file)
}

impl TransferPlan {
    /// The step to perform when `done` steps have been performed, if any is
    /// left. A plan made for a dry run has no step to perform.
    pub fn next_step(&self, done: usize) -> (r: Option<&TransferStep>)
        ensures
            match r {
                Some(step) => !self.dry_run && done < self.steps.len() && *step
                    == self.steps@[done as int],
                None => self.dry_run || done >= self.steps.len(),
            },
    {
        if self.dry_run || done >= self.steps.len() {
            None
        } else {
            Some(&self.steps[done])
        }
    }
}

/// The time a manifest carries until it is stamped.
pub open spec fn unstamped() -> Timestamp {
    Timestamp { unix_nanos: 0, offset_seconds: 0 }
}

/// Plans the publish of the local files as the version `id` of the game.
/// `previous` is the version that the repository's manifest names so far, if
/// there is one.
pub fn publication(
    definition: &GameDefinition,
    local_files: &ResolvedSaveFiles,
    previous: Option<&str>,
    id: String,
    dry_run: bool,
) -> (plan: TransferPlan)
    ensures
        plan.dry_run == dry_run,
        plan.manifest@ == (GameSaveManifestView {
            id: id@,
            definition: definition@,
            timestamp: unstamped(),
            files: published_files(entry_views(*local_files)),
        }),
        step_views(plan.steps@) == publish_steps(
            definition@.name,
            id@,
            local_files.order(),
            entry_views(*local_files),
            option_text(previous),
        ),
{
    let n = local_files.len();
    let ghost game = definition@.name;
    let ghost locals = local_files.order();
    let ghost entries = entry_views(*local_files);
    let mut steps: Vec<TransferStep> = Vec::new();
    let mut files: StringMap<SaveFileTable> = StringMap::new();
    let mut i: usize = 0;
    assert(entries.subrange(0, 0) =~= Seq::<ResolvedSaveFileView>::empty());
    assert(table_views(files) =~= published_files(entries.subrange(0, 0)));
    assert(step_views(steps@) =~= store_steps(game, id@, locals, entries).subrange(0, 0));
    while i < n
        invariant
            i <= n,
            n == locals.len(),
            n == entries.len(),
            game == definition@.name,
            locals == local_files.order(),
            entries == entry_views(*local_files),
            local_files.wf(),
            files.wf(),
            step_views(steps@) == store_steps(game, id@, locals, entries).subrange(0, i as int),
            table_views(files) == published_files(entries.subrange(0, i as int)),
        decreases n - i,
    {
        let local = local_files.key(i);
        let entry = local_files.value(i);
        let ghost next = entries.subrange(0, i + 1);
        assert(next.drop_last() =~= entries.subrange(0, i as int));
        assert(next.last() == entry@);
        let object = object_path(
            definition.name.as_str(),
            id.as_str(),
            entry.path.as_str(),
            entry.file.as_str(),
        );
        let ghost steps_before = step_views(steps@);
        let step = TransferStep::StoreFile { local: local.clone(), object };
        assert(entries[i as int] == entry@);
        assert(step@ == store_steps(game, id@, locals, entries)[i as int]);
        steps.push(step);
        assert(step_views(steps@) =~= steps_before.push(step@));
        assert(step_views(steps@) =~= store_steps(game, id@, locals, entries).subrange(0, i + 1));
        let ghost before = table_views(files);
        match files.position(entry.path.as_str()) {
            Some(b) => {
                proof {
                    files.lemma_wf();
                }
                let mut table = files.set_value(b, StringMap::new());
                let ghost old_table = table@;
                assert(old_table == before[entry.path@]);
                table.insert(entry.file.clone(), entry.metadata);
                let _ = files.set_value(b, table);
                assert(table_views(files) =~= before.insert(
                    entry.path@,
                    old_table.insert(entry.file@, entry.metadata),
                ));
            },
            None => {
                let mut table: SaveFileTable = StringMap::new();
                table.insert(entry.file.clone(), entry.metadata);
                files.insert(entry.path.clone(), table);
                assert(table_views(files) =~= before.insert(
                    entry.path@,
                    Map::<Seq<char>, GameSaveFileMetadata>::empty().insert(
                        entry.file@,
                        entry.metadata,
                    ),
                ));
            },
        }
        i += 1;
    }
    assert(entries.subrange(0, n as int) =~= entries);
    let ghost stored = step_views(steps@);
    assert(stored =~= store_steps(game, id@, locals, entries));
    steps.push(TransferStep::StampManifest);
    steps.push(TransferStep::WriteRepositoryManifest);
    steps.push(TransferStep::WriteSyncedManifest);
    let ghost written = step_views(steps@);
    assert(written =~= stored + seq![
        TransferStepView::StampManifest,
        TransferStepView::WriteRepositoryManifest,
        TransferStepView::WriteSyncedManifest,
    ]);
    match previous {
        Some(old) => {
            let path = version_path(definition.name.as_str(), old);
            steps.push(TransferStep::RemoveVersion { path });
            assert(step_views(steps@) =~= written + seq![
                TransferStepView::RemoveVersion { path: version_path_of(game, old@) },
            ]);
        },
        None => {
            assert(step_views(steps@) =~= written + Seq::<TransferStepView>::empty());
        },
    }
    assert(step_views(steps@) =~= publish_steps(game, id@, locals, entries, option_text(previous)));
    let timestamp = Timestamp { unix_nanos: 0, offset_seconds: 0 };
    let manifest = GameSaveManifest { id, definition: definition.clone(), timestamp, files };
    TransferPlan { manifest, steps, dry_run }
}

/// Whether one of the resolved declared paths is the path or one of its
/// ancestors.
pub open spec fn is_declared(roots: Seq<Seq<char>>, path: Seq<char>) -> bool {
    exists|r: int| 0 <= r < roots.len() && covers(#[trigger] roots[r], path)
}

/// Whether every one of the paths lies at or under a resolved declared path.
pub open spec fn all_declared(roots: Seq<Seq<char>>, paths: Seq<Seq<char>>) -> bool {
    forall|i: int| 0 <= i < paths.len() ==> is_declared(roots, #[trigger] paths[i])
}

/// Whether the path at place `i` is the first of the paths that lies under no
/// resolved declared path.
pub open spec fn is_first_undeclared(roots: Seq<Seq<char>>, paths: Seq<Seq<char>>, i: int) -> bool {
    &&& 0 <= i < paths.len()
    &&& !is_declared(roots, paths[i])
    &&& forall|j: int| 0 <= j < i ==> is_declared(roots, #[trigger] paths[j])
}

fn path_is_declared(roots: &Vec<Vec<char>>, path: &Vec<char>) -> (r: bool)
    ensures
        r == is_declared(texts(roots@), path@),
{
    let mut i: usize = 0;
    while i < roots.len()
        invariant
            i <= roots.len(),
            forall|j: int| 0 <= j < i ==> !covers(#[trigger] texts(roots@)[j], path@),
        decreases roots.len() - i,
    {
        if path_covers(&roots[i], path) {
            assert(covers(texts(roots@)[i as int], path@));
            return true;
        }
        i += 1;
    }
    false
}

/// Plans the apply of a version of the repository: `manifest` is the
/// repository's manifest and `repository_files` its files by local path.
/// Fails with the first declared path of the manifest's definition that cannot
/// be resolved, and where all resolve with the first file that lies under
/// none of them: an apply removes and writes only at or under the declared
/// paths.
pub fn application(
    manifest: &GameSaveManifest,
    repository_files: &ResolvedSaveFiles,
    home: Option<&str>,
    dry_run: bool,
) -> (r: Result<TransferPlan, SyncError>)
    ensures
        match resolve_all(manifest@.definition.paths, option_text(home)) {
            Err(failure) => r matches Err(SyncError::Path(e)) && failure == (e.path@, e.kind),
            Ok(roots) => if all_declared(roots, repository_files.order()) {
                r matches Ok(plan) && {
                    &&& plan.dry_run == dry_run
                    &&& plan.manifest@ == manifest@
                    &&& same_tables(plan.manifest.files, manifest.files)
                    &&& step_views(plan.steps@) == apply_steps(
                        manifest@.definition.name,
                        manifest@.id,
                        roots,
                        repository_files.order(),
                        entry_views(*repository_files),
                    )
                }
            } else {
                r matches Err(SyncError::OutsideDeclaredPaths { path }) && exists|i: int|
                    is_first_undeclared(roots, repository_files.order(), i) && path@
                        == #[trigger] repository_files.order()[i]
            },
        },
{
    let ghost game = manifest@.definition.name;
    let ghost declared = manifest@.definition.paths;
    let ghost h = option_text(home);
    let ghost locals = repository_files.order();
    let ghost entries = entry_views(*repository_files);
    let ghost mut roots: Seq<Seq<char>> = Seq::empty();
    let mut root_texts: Vec<Vec<char>> = Vec::new();
    let mut steps: Vec<TransferStep> = Vec::new();
    let paths = manifest.definition.paths.len();
    let mut i: usize = 0;
    assert(declared.subrange(0, 0) =~= Seq::<Seq<char>>::empty());
    assert(step_views(steps@) =~= removal_steps(roots, locals.to_set()));
    assert(texts(root_texts@) =~= roots);
    while i < paths
        invariant
            i <= paths,
            paths == declared.len(),
            paths == manifest.definition.paths.len(),
            declared == manifest@.definition.paths,
            h == option_text(home),
            locals == repository_files.order(),
            roots.len() == i,
            texts(root_texts@) == roots,
            resolve_all(declared.subrange(0, i as int), h) == Ok::<
                Seq<Seq<char>>,
                (Seq<char>, PathErrorKind),
            >(roots),
            step_views(steps@) == removal_steps(roots, locals.to_set()),
        decreases paths - i,
    {
        let declared_path = &manifest.definition.paths[i].path;
        assert(declared_path@ == declared[i as int]);
        let ghost declared_next = declared.subrange(0, i + 1);
        assert(declared_next.drop_last() =~= declared.subrange(0, i as int));
        let root = match rewrite_path(declared_path.as_str(), home) {
            Ok(root) => root,
            Err(e) => {
                proof {
                    crate::commands::sync::lemma_resolve_all_fails(declared, h, i as int);
                }
                return Err(SyncError::Path(e));
            },
        };
        let ghost roots_next = roots.push(root@);
        assert(roots_next.drop_last() =~= roots);
        let target = normal_path(root.as_str());
        let present = repository_files.contains_key(target.as_str());
        proof {
            repository_files.lemma_wf();
        }
        let ghost before = step_views(steps@);
        if !present {
            steps.push(TransferStep::RemoveLocal { path: target });
            assert(step_views(steps@) =~= before.push(
                TransferStepView::RemoveLocal { path: normalized(root@) },
            ));
        }
        root_texts.push(to_chars(root.as_str()));
        proof {
            roots = roots_next;
            assert(texts(root_texts@) =~= roots);
        }
        i += 1;
    }
    assert(declared.subrange(0, paths as int) =~= declared);
    let n = repository_files.len();
    let ghost removals = step_views(steps@);
    let mut j: usize = 0;
    assert(removals + fetch_steps(game, manifest@.id, locals, entries).subrange(0, 0) =~= removals);
    while j < n
        invariant
            j <= n,
            n == locals.len(),
            n == entries.len(),
            game == manifest@.definition.name,
            locals == repository_files.order(),
            entries == entry_views(*repository_files),
            repository_files.wf(),
            texts(root_texts@) == roots,
            resolve_all(manifest@.definition.paths, option_text(home)) == Ok::<
                Seq<Seq<char>>,
                (Seq<char>, PathErrorKind),
            >(roots),
            forall|k: int| 0 <= k < j ==> is_declared(roots, #[trigger] locals[k]),
            step_views(steps@) == removals + fetch_steps(
                game,
                manifest@.id,
                locals,
                entries,
            ).subrange(0, j as int),
        decreases n - j,
    {
        let local = repository_files.key(j);
        let entry = repository_files.value(j);
        let local_text = to_chars(local.as_str());
        if !path_is_declared(&root_texts, &local_text) {
            assert(is_first_undeclared(roots, locals, j as int));
            assert(!all_declared(roots, locals));
            return Err(SyncError::OutsideDeclaredPaths { path: local.clone() });
        }
        let object = object_path(
            manifest.definition.name.as_str(),
            manifest.id.as_str(),
            entry.path.as_str(),
            entry.file.as_str(),
        );
        let ghost steps_before = step_views(steps@);
        let step = TransferStep::FetchFile {
            object,
            local: local.clone(),
            modified: entry.metadata.modified,
        };
        assert(entries[j as int] == entry@);
        assert(step@ == fetch_steps(game, manifest@.id, locals, entries)[j as int]);
        steps.push(step);
        assert(step_views(steps@) =~= steps_before.push(step@));
        assert(step_views(steps@) =~= removals + fetch_steps(
            game,
            manifest@.id,
            locals,
            entries,
        ).subrange(0, j + 1));
        j += 1;
    }
    assert(all_declared(roots, locals));
    assert(fetch_steps(game, manifest@.id, locals, entries).subrange(0, n as int)
        =~= fetch_steps(game, manifest@.id, locals, entries));
    let ghost fetched = step_views(steps@);
    steps.push(TransferStep::StampManifest);
    steps.push(TransferStep::WriteSyncedManifest);
    assert(step_views(steps@) =~= fetched + seq![
        TransferStepView::StampManifest,
        TransferStepView::WriteSyncedManifest,
    ]);
    Ok(TransferPlan { manifest: manifest.restamped(manifest.timestamp), steps, dry_run })
}

impl TransferPlan {
    /// Stamps the plan's manifest with the time `now`.
    pub fn stamped(&mut self, now: Timestamp)
        ensures
            final(self).manifest@ == (GameSaveManifestView { timestamp: now, ..old(self).manifest@ }),
            final(self).manifest.files == old(self).manifest.files,
            final(self).steps == old(self).steps,
            final(self).dry_run == old(self).dry_run,
    {
        self.manifest.timestamp = now;
    }

    /// Stamps the plan's manifest with the current local time. Fails, and
    /// leaves the plan as it is, when the local time cannot be determined.
    pub fn stamp(&mut self) -> (r: Result<(), SyncError>)
        ensures
            final(self).manifest@ == (GameSaveManifestView {
                timestamp: final(self).manifest.timestamp,
                ..old(self).manifest@
            }),
            final(self).manifest.files == old(self).manifest.files,
            final(self).steps == old(self).steps,
            final(self).dry_run == old(self).dry_run,
            r matches Err(e) ==> e is LocalTimeUnavailable && *final(self) == *old(self),
    {
        match now_local() {
            Some(now) => {
                self.stamped(now);
                Ok(())
            },
            None => Err(SyncError::LocalTimeUnavailable),
        }
    }
}

/// What a dry run reports of a step: a line for each file that would be
/// stored, removed or applied, and nothing for the other steps.
pub open spec fn report_of(step: TransferStepView) -> Option<Seq<char>> {
    match step {
        TransferStepView::StoreFile { local, object } => Some(
            "- Storing "@ + local + " in repository"@,
        ),
        TransferStepView::RemoveLocal { path } => Some("- Removing save file at "@ + path),
        TransferStepView::FetchFile { object, local, modified } => Some(
            "Applying save file "@ + local,
        ),
        _ => None,
    }
}

impl TransferStep {
    /// What a dry run reports of the step.
    pub fn report(&self) -> (r: Option<String>)
        ensures
            match r {
                Some(line) => report_of(self@) == Some(line@),
                None => report_of(self@) is None,
            },
    {
        match self {
            TransferStep::StoreFile { local, object } => {
                let mut line = String::from_str("- Storing ");
                line.append(local.as_str());
                line.append(" in repository");
                Some(line)
            },
            TransferStep::RemoveLocal { path } => {
                let mut line = String::from_str("- Removing save file at ");
                line.append(path.as_str());
                Some(line)
            },
            TransferStep::FetchFile { object, local, modified } => {
                let mut line = String::from_str("Applying save file ");
                line.append(local.as_str());
                Some(line)
            },
            _ => None,
        }
    }
}

/// Whether a character may stand in the text of a version identifier: a
/// hyphen, a digit or a lower-case letter from `a` to `f`.
pub open spec fn is_version_char(c: char) -> bool {
    ||| c == '-'
    ||| 48 <= (c as u32) <= 57
    ||| 97 <= (c as u32) <= 102
}

/// Whether a text has the form of a version identifier: 36 characters, each a
/// hyphen or a lower-case hexadecimal digit.
pub open spec fn is_version_text(s: Seq<char>) -> bool {
    &&& s.len() == 36
    &&& forall|i: int| 0 <= i < s.len() ==> is_version_char(#[trigger] s[i])
}

/// Whether a text has the form of a version identifier.
pub fn is_version_id(id: &str) -> (r: bool)
    ensures
        r == is_version_text(id@),
{
    let chars = to_chars(id);
    if chars.len() != 36 {
        return false;
    }
    let mut i: usize = 0;
    while i < chars.len()
        invariant
            i <= chars.len(),
            chars@ == id@,
            forall|j: int| 0 <= j < i ==> is_version_char(#[trigger] chars@[j]),
        decreases chars.len() - i,
    {
        let c = chars[i];
        let code: u32 = c as u32;
        if !(c == '-' || (48 <= code && code <= 57) || (97 <= code && code <= 102)) {
            assert(!is_version_char(id@[i as int]));
            return false;
        }
        i += 1;
    }
    true
}

/// Trusted: a fresh version identifier, the `Display` form of `Uuid::new_v4` of
/// the uuid crate. The identifier is random; its text is the hyphenated
/// lower-case form, 32 hexadecimal digits in five groups with a hyphen between
/// the groups.
#[verifier::external_body]
fn fresh_version_id() -> (r: String)
    ensures
        is_version_text(r@),
{
    uuid::Uuid::new_v4().to_string()
}

/// A fresh version identifier.
pub fn new_version_id() -> (id: String)
    ensures
        is_version_text(id@),
{
    fresh_version_id()
}

/// The identifier of a manifest, if there is a manifest.
pub open spec fn option_id(manifest: Option<&GameSaveManifest>) -> Option<Seq<char>> {
    match manifest {
        Some(m) => Some(m@.id),
        None => None,
    }
}

/// Plans the publish of the local files as the version `id`, which was drawn
/// afresh. `previous` is the repository's manifest so far, if there is one.
/// Fails when the manifest so far names a version whose identifier does not
/// have the form of one, and when the identifier drawn is the one it names: the
/// tree that the plan removes is never the tree that it stores.
pub fn fresh_publication(
    definition: &GameDefinition,
    local_files: &ResolvedSaveFiles,
    previous: Option<&GameSaveManifest>,
    id: String,
    dry_run: bool,
) -> (r: Result<TransferPlan, SyncError>)
    ensures
        match option_id(previous) {
            Some(old) if !is_version_text(old) => r matches Err(
                SyncError::MalformedVersion { id: shown },
            ) && shown@ == old,
            Some(old) if old == id@ => r matches Err(SyncError::VersionNotFresh),
            _ => r matches Ok(plan) && {
                &&& plan.dry_run == dry_run
                &&& plan.manifest@ == (GameSaveManifestView {
                    id: id@,
                    definition: definition@,
                    timestamp: unstamped(),
                    files: published_files(entry_views(*local_files)),
                })
                &&& step_views(plan.steps@) == publish_steps(
                    definition@.name,
                    id@,
                    local_files.order(),
                    entry_views(*local_files),
                    option_id(previous),
                )
            },
        },
{
    let old: Option<&str> = match previous {
        Some(manifest) => {
            if !is_version_id(manifest.id.as_str()) {
                return Err(SyncError::MalformedVersion { id: manifest.id.clone() });
            }
            if crate::utils::text::str_eq(manifest.id.as_str(), id.as_str()) {
                return Err(SyncError::VersionNotFresh);
            }
            Some(manifest.id.as_str())
        },
        None => None,
    };
    Ok(publication(definition, local_files, old, id, dry_run))
}

/// Plans the publish of the local files as a fresh version of the game.
/// `previous` is the repository's manifest so far, if there is one.
///
/// A first publish, with no manifest so far, always succeeds. With a manifest
/// so far the publish fails when that manifest names a version whose
/// identifier does not have the form of one, and otherwise succeeds unless
/// the identifier drawn is the one the manifest names. The new version always
/// differs from the one named so far.
pub fn sync_game_to_repository(
    definition: &GameDefinition,
    local_files: &ResolvedSaveFiles,
    previous: Option<&GameSaveManifest>,
    args: &SyncArgs,
) -> (r: Result<TransferPlan, SyncError>)
    ensures
        match option_id(previous) {
            None => r is Ok,
            Some(old) => if is_version_text(old) {
                r is Ok || r matches Err(SyncError::VersionNotFresh)
            } else {
                r matches Err(SyncError::MalformedVersion { id: shown }) && shown@ == old
            },
        },
        r matches Ok(plan) ==> {
            &&& is_version_text(plan.manifest@.id)
            &&& option_id(previous) matches Some(old) ==> old != plan.manifest@.id
            &&& plan.dry_run == args.dry_run
            &&& plan.manifest@ == (GameSaveManifestView {
                id: plan.manifest@.id,
                definition: definition@,
                timestamp: unstamped(),
                files: published_files(entry_views(*local_files)),
            })
            &&& step_views(plan.steps@) == publish_steps(
                definition@.name,
                plan.manifest@.id,
                local_files.order(),
                entry_views(*local_files),
                option_id(previous),
            )
        },
{
    let id = new_version_id();
    fresh_publication(definition, local_files, previous, id, args.dry_run)
}

/// Plans the apply of the repository's version. `manifest` is the repository's
/// manifest and `repository_files` its files by local path. Fails with the
/// first declared path of the manifest's definition that cannot be resolved,
/// and where all resolve with the first file that lies under none of them.
pub fn sync_game_from_repository(
    manifest: &GameSaveManifest,
    repository_files: &ResolvedSaveFiles,
    home: Option<&str>,
    args: &SyncArgs,
) -> (r: Result<TransferPlan, SyncError>)
    ensures
        match resolve_all(manifest@.definition.paths, option_text(home)) {
            Err(failure) => r matches Err(SyncError::Path(e)) && failure == (e.path@, e.kind),
            Ok(roots) => if all_declared(roots, repository_files.order()) {
                r matches Ok(plan) && {
                    &&& plan.dry_run == args.dry_run
                    &&& plan.manifest@ == manifest@
                    &&& same_tables(plan.manifest.files, manifest.files)
                    &&& step_views(plan.steps@) == apply_steps(
                        manifest@.definition.name,
                        manifest@.id,
                        roots,
                        repository_files.order(),
                        entry_views(*repository_files),
                    )
                }
            } else {
                r matches Err(SyncError::OutsideDeclaredPaths { path }) && exists|i: int|
                    is_first_undeclared(roots, repository_files.order(), i) && path@
                        == #[trigger] repository_files.order()[i]
            },
        },
{
    application(manifest, repository_files, home, args.dry_run)
}

} // verus!
