//! What holds across the functions of the synchronisation: a publish followed
//! by a second look finds nothing to do.

use vstd::prelude::*;
use crate::commands::sync::{
    decision, files_equal, lemma_files_equal_symmetric, lemma_files_equal_transitive, local_key,
    manifest_file_set, resolve_all, with_table, FileSet, ResolvedSaveFileView, ResolvedSaveFiles,
    SyncDecision, SyncDirection,
};
use crate::commands::sync::snapshot::located;
use crate::commands::sync::transfer::{entry_views, published_files};
use crate::games::manifest::{table_views, GameSaveFileMetadata, SaveFileTable};
use crate::games::paths::resolution;
use crate::utils::string_map::StringMap;

verus! {

/// Every file recorded by a publish is one of the published files, with the
/// declared path, the relative path and the metadata of that file.
pub proof fn lemma_published_from_entry(entries: Seq<ResolvedSaveFileView>, d: Seq<char>, f: Seq<char>)
    requires
        published_files(entries).contains_key(d),
        published_files(entries)[d].contains_key(f),
    ensures
        exists|i: int|
            0 <= i < entries.len() && (#[trigger] entries[i]).path == d && entries[i].file == f
                && entries[i].metadata == published_files(entries)[d][f],
    decreases entries.len(),
{
    if entries.len() > 0 {
        let before = published_files(entries.drop_last());
        let last = entries.last();
        if last.path == d && last.file == f {
            assert(entries[entries.len() - 1] == last);
        } else {
            if last.path == d {
                assert(before.contains_key(d) && before[d].contains_key(f));
                assert(published_files(entries)[d][f] == before[d][f]);
            }
            lemma_published_from_entry(entries.drop_last(), d, f);
            let i = choose|i: int|
                0 <= i < entries.drop_last().len() && (#[trigger] entries.drop_last()[i]).path == d
                    && entries.drop_last()[i].file == f && entries.drop_last()[i].metadata
                    == before[d][f];
            assert(entries[i] == entries.drop_last()[i]);
        }
    }
}

/// Every published file is recorded under its declared path and its relative
/// path.
pub proof fn lemma_entry_is_published(entries: Seq<ResolvedSaveFileView>, i: int)
    requires
        0 <= i < entries.len(),
    ensures
        published_files(entries).contains_key(entries[i].path),
        published_files(entries)[entries[i].path].contains_key(entries[i].file),
    decreases entries.len(),
{
    if i < entries.len() - 1 {
        lemma_entry_is_published(entries.drop_last(), i);
        assert(entries.drop_last()[i] == entries[i]);
    }
}

/// A publish records exactly the local files. Where the local files have
/// distinct local paths and lie where their declared and relative paths say,
/// as the files of a walk do, no two of them share both declared and relative
/// path, and each is recorded under its declared path and its relative path
/// with its own metadata.
pub proof fn lemma_published_records_each(local: ResolvedSaveFiles, home: Option<Seq<char>>, i: int)
    requires
        local.wf(),
        located(local.order(), entry_views(local), home),
        0 <= i < local.order().len(),
    ensures
        published_files(entry_views(local)).contains_key(entry_views(local)[i].path),
        published_files(entry_views(local))[entry_views(local)[i].path].contains_key(
            entry_views(local)[i].file,
        ),
        published_files(entry_views(local))[entry_views(local)[i].path][entry_views(
            local,
        )[i].file] == entry_views(local)[i].metadata,
        forall|j: int|
            0 <= j < local.order().len() && (#[trigger] entry_views(local)[j]).path == entry_views(
                local,
            )[i].path && entry_views(local)[j].file == entry_views(local)[i].file ==> j == i,
{
    let keys = local.order();
    let entries = entry_views(local);
    local.lemma_wf();
    lemma_entry_is_published(entries, i);
    lemma_published_from_entry(entries, entries[i].path, entries[i].file);
    assert forall|j: int|
        0 <= j < keys.len() && (#[trigger] entries[j]).path == entries[i].path && entries[j].file
            == entries[i].file implies j == i by {
        assert(keys[j] == keys[i]);
    }
}

/// Every declared path that a publish records is the declared path of one of
/// the published files.
pub proof fn lemma_published_path_from_entry(entries: Seq<ResolvedSaveFileView>, d: Seq<char>)
    requires
        published_files(entries).contains_key(d),
    ensures
        exists|i: int| 0 <= i < entries.len() && (#[trigger] entries[i]).path == d,
    decreases entries.len(),
{
    if entries.len() > 0 {
        if entries.last().path == d {
            assert(entries[entries.len() - 1].path == d);
        } else {
            lemma_published_path_from_entry(entries.drop_last(), d);
            let i = choose|i: int|
                0 <= i < entries.drop_last().len() && (#[trigger] entries.drop_last()[i]).path == d;
            assert(entries[i] == entries.drop_last()[i]);
        }
    }
}

/// Where every declared path resolves, resolving all of them gives the
/// resolved form of each, in order.
pub proof fn lemma_resolve_all_succeeds(paths: Seq<Seq<char>>, home: Option<Seq<char>>)
    requires
        forall|i: int| 0 <= i < paths.len() ==> resolution(#[trigger] paths[i], home) is Ok,
    ensures
        resolve_all(paths, home) is Ok,
        resolve_all(paths, home)->Ok_0.len() == paths.len(),
        forall|i: int|
            0 <= i < paths.len() ==> (#[trigger] resolve_all(paths, home)->Ok_0[i]) == resolution(
                paths[i],
                home,
            )->Ok_0,
    decreases paths.len(),
{
    if paths.len() > 0 {
        assert forall|i: int| 0 <= i < paths.drop_last().len() implies resolution(
            #[trigger] paths.drop_last()[i],
            home,
        ) is Ok by {
            assert(paths.drop_last()[i] == paths[i]);
        }
        lemma_resolve_all_succeeds(paths.drop_last(), home);
        assert(paths.last() == paths[paths.len() - 1]);
        let before = resolve_all(paths.drop_last(), home)->Ok_0;
        let all = resolve_all(paths, home)->Ok_0;
        assert(all == before.push(resolution(paths.last(), home)->Ok_0));
        assert forall|i: int| 0 <= i < paths.len() implies (#[trigger] all[i]) == resolution(
            paths[i],
            home,
        )->Ok_0 by {
            if i < paths.len() - 1 {
                assert(all[i] == before[i]);
                assert(paths.drop_last()[i] == paths[i]);
            }
        }
    }
}

/// What adding the files of one declared path does: each of them is there
/// afterwards, what was there before stays unless one of them replaces it, and
/// nothing else is added.
pub proof fn lemma_with_table(
    acc: FileSet,
    declared: Seq<char>,
    root: Seq<char>,
    names: Seq<Seq<char>>,
    metadata: Seq<GameSaveFileMetadata>,
)
    requires
        names.len() == metadata.len(),
    ensures
        forall|j: int|
            0 <= j < names.len() ==> with_table(acc, declared, root, names, metadata).contains_key(
                #[trigger] local_key(root, names[j]),
            ),
        forall|k: Seq<char>|
            acc.contains_key(k) ==> #[trigger] with_table(
                acc,
                declared,
                root,
                names,
                metadata,
            ).contains_key(k),
        forall|k: Seq<char>| #[trigger]
            with_table(acc, declared, root, names, metadata).contains_key(k) ==> (acc.contains_key(k)
                && with_table(acc, declared, root, names, metadata)[k] == acc[k]) || (exists|j: int|
                0 <= j < names.len() && k == local_key(root, #[trigger] names[j]) && with_table(
                    acc,
                    declared,
                    root,
                    names,
                    metadata,
                )[k] == (ResolvedSaveFileView {
                    path: declared,
                    file: names[j],
                    metadata: metadata[j],
                })),
    decreases names.len(),
{
    if names.len() > 0 {
        let before = with_table(acc, declared, root, names.drop_last(), metadata.drop_last());
        let after = with_table(acc, declared, root, names, metadata);
        lemma_with_table(acc, declared, root, names.drop_last(), metadata.drop_last());
        let last_key = local_key(root, names.last());
        let last_value = ResolvedSaveFileView {
            path: declared,
            file: names.last(),
            metadata: metadata.last(),
        };
        assert(after == before.insert(last_key, last_value));
        assert forall|j: int| 0 <= j < names.len() implies after.contains_key(
            #[trigger] local_key(root, names[j]),
        ) by {
            if j < names.len() - 1 {
                assert(names.drop_last()[j] == names[j]);
                assert(before.contains_key(local_key(root, names.drop_last()[j])));
            }
        }
        assert forall|k: Seq<char>| #[trigger] after.contains_key(k) implies (acc.contains_key(k)
            && after[k] == acc[k]) || (exists|j: int|
            0 <= j < names.len() && k == local_key(root, #[trigger] names[j]) && after[k] == (
            ResolvedSaveFileView { path: declared, file: names[j], metadata: metadata[j] })) by {
            if k == last_key {
                let j = names.len() - 1;
                assert(k == local_key(root, names[j]) && after[k] == (ResolvedSaveFileView {
                    path: declared,
                    file: names[j],
                    metadata: metadata[j],
                }));
            } else {
                assert(before.contains_key(k));
                assert(after[k] == before[k]);
                if !(acc.contains_key(k) && before[k] == acc[k]) {
                    let j = choose|j: int|
                        0 <= j < names.drop_last().len() && k == local_key(
                            root,
                            #[trigger] names.drop_last()[j],
                        ) && before[k] == (ResolvedSaveFileView {
                            path: declared,
                            file: names.drop_last()[j],
                            metadata: metadata.drop_last()[j],
                        });
                    assert(names[j] == names.drop_last()[j]);
                    assert(metadata[j] == metadata.drop_last()[j]);
                    assert(k == local_key(root, names[j]) && after[k] == (ResolvedSaveFileView {
                        path: declared,
                        file: names[j],
                        metadata: metadata[j],
                    }));
                }
            }
        }
    }
}

/// Whether the file at place `j` of the table at place `b` lies at `k` and is
/// recorded as `value`.
pub open spec fn listed_at(
    declared: Seq<Seq<char>>,
    tables: Seq<SaveFileTable>,
    roots: Seq<Seq<char>>,
    b: int,
    j: int,
    k: Seq<char>,
    value: ResolvedSaveFileView,
) -> bool {
    &&& 0 <= b < declared.len()
    &&& 0 <= j < tables[b].order().len()
    &&& k == local_key(roots[b], tables[b].order()[j])
    &&& value == (ResolvedSaveFileView {
        path: declared[b],
        file: tables[b].order()[j],
        metadata: tables[b].items()[j],
    })
}

/// What the files of a manifest by local path are: every file of every table
/// is among them at its local path, and each of them is a file of a table, at
/// that file's local path and with its declared path, relative path and
/// metadata.
pub proof fn lemma_manifest_file_set(
    declared: Seq<Seq<char>>,
    tables: Seq<SaveFileTable>,
    roots: Seq<Seq<char>>,
)
    requires
        declared.len() == tables.len(),
        declared.len() == roots.len(),
        forall|b: int| 0 <= b < tables.len() ==> (#[trigger] tables[b]).wf(),
    ensures
        forall|b: int, j: int|
            0 <= b < declared.len() && 0 <= j < tables[b].order().len() ==> manifest_file_set(
                declared,
                tables,
                roots,
            ).contains_key(#[trigger] local_key(roots[b], tables[b].order()[j])),
        forall|k: Seq<char>| #[trigger]
            manifest_file_set(declared, tables, roots).contains_key(k) ==> exists|b: int, j: int|
                #[trigger] listed_at(
                    declared,
                    tables,
                    roots,
                    b,
                    j,
                    k,
                    manifest_file_set(declared, tables, roots)[k],
                ),
    decreases declared.len(),
{
    if declared.len() > 0 {
        let n = declared.len() - 1;
        let before = manifest_file_set(declared.drop_last(), tables.drop_last(), roots.drop_last());
        let after = manifest_file_set(declared, tables, roots);
        let table = tables.last();
        assert(table == tables[n]);
        assert(table.wf());
        table.lemma_wf();
        assert forall|b: int| 0 <= b < tables.drop_last().len() implies (
        #[trigger] tables.drop_last()[b]).wf() by {
            assert(tables.drop_last()[b] == tables[b]);
        }
        lemma_manifest_file_set(declared.drop_last(), tables.drop_last(), roots.drop_last());
        lemma_with_table(before, declared.last(), roots.last(), table.order(), table.items());
        assert(after == with_table(before, declared.last(), roots.last(), table.order(), table.items()));
        assert forall|b: int, j: int|
            0 <= b < declared.len() && 0 <= j < tables[b].order().len() implies after.contains_key(
            #[trigger] local_key(roots[b], tables[b].order()[j]),
        ) by {
            if b < n {
                assert(tables.drop_last()[b] == tables[b]);
                assert(roots.drop_last()[b] == roots[b]);
                assert(before.contains_key(
                    local_key(roots.drop_last()[b], tables.drop_last()[b].order()[j]),
                ));
            } else {
                assert(after.contains_key(local_key(roots.last(), table.order()[j])));
            }
        }
        assert forall|k: Seq<char>| #[trigger] after.contains_key(k) implies exists|b: int, j: int|
            #[trigger] listed_at(declared, tables, roots, b, j, k, after[k]) by {
            if before.contains_key(k) && after[k] == before[k] {
                let (b, j) = choose|b: int, j: int| #[trigger]
                    listed_at(
                        declared.drop_last(),
                        tables.drop_last(),
                        roots.drop_last(),
                        b,
                        j,
                        k,
                        before[k],
                    );
                assert(tables.drop_last()[b] == tables[b]);
                assert(roots.drop_last()[b] == roots[b]);
                assert(declared.drop_last()[b] == declared[b]);
                assert(listed_at(declared, tables, roots, b, j, k, after[k]));
            } else {
                let j = choose|j: int|
                    0 <= j < table.order().len() && k == local_key(
                        roots.last(),
                        #[trigger] table.order()[j],
                    ) && after[k] == (ResolvedSaveFileView {
                        path: declared.last(),
                        file: table.order()[j],
                        metadata: table.items()[j],
                    });
                assert(listed_at(declared, tables, roots, n, j, k, after[k]));
            }
        }
    }
}

/// Whether the file at place `j` of the table at place `b` is the local file at
/// place `i`: at the same local path, with the same declared path, relative
/// path and metadata.
pub open spec fn is_local_at(
    keys: Seq<Seq<char>>,
    entries: Seq<ResolvedSaveFileView>,
    declared: Seq<Seq<char>>,
    tables: Seq<SaveFileTable>,
    roots: Seq<Seq<char>>,
    b: int,
    j: int,
    i: int,
) -> bool {
    &&& 0 <= i < keys.len()
    &&& keys[i] == local_key(roots[b], tables[b].order()[j])
    &&& entries[i].metadata == tables[b].items()[j]
    &&& entries[i].path == declared[b]
    &&& entries[i].file == tables[b].order()[j]
}

/// Whether the file at place `j` of the table at place `b` is one of the local
/// files.
pub open spec fn is_local(
    keys: Seq<Seq<char>>,
    entries: Seq<ResolvedSaveFileView>,
    declared: Seq<Seq<char>>,
    tables: Seq<SaveFileTable>,
    roots: Seq<Seq<char>>,
    b: int,
    j: int,
) -> bool {
    exists|i: int| #[trigger] is_local_at(keys, entries, declared, tables, roots, b, j, i)
}

/// The files that a publish records resolve to the files that were published.
/// Where the local files lie where their declared and relative paths say, as
/// the files of a walk do, and `files` are the tables that a publish of them
/// records, then every declared path of the tables resolves, and the files of
/// the tables by local path equal the local files.
pub proof fn lemma_published_files_resolve(
    local: ResolvedSaveFiles,
    files: StringMap<SaveFileTable>,
    home: Option<Seq<char>>,
)
    requires
        local.wf(),
        files.wf(),
        forall|b: int| 0 <= b < files.items().len() ==> (#[trigger] files.items()[b]).wf(),
        located(local.order(), entry_views(local), home),
        table_views(files) == published_files(entry_views(local)),
    ensures
        resolve_all(files.order(), home) is Ok,
        files_equal(
            local.deep(),
            manifest_file_set(files.order(), files.items(), resolve_all(files.order(), home)->Ok_0),
        ),
{
    let keys = local.order();
    let entries = entry_views(local);
    let declared = files.order();
    let tables = files.items();
    let published = published_files(entries);
    local.lemma_wf();
    files.lemma_wf();
    assert forall|b: int| 0 <= b < declared.len() implies resolution(
        #[trigger] declared[b],
        home,
    ) is Ok by {
        assert(files@.contains_key(declared[b]));
        assert(table_views(files).contains_key(declared[b]));
        lemma_published_path_from_entry(entries, declared[b]);
        let i = choose|i: int| 0 <= i < entries.len() && (#[trigger] entries[i]).path == declared[b];
        assert(resolution(entries[i].path, home) is Ok);
    }
    lemma_resolve_all_succeeds(declared, home);
    let roots = resolve_all(declared, home)->Ok_0;
    let resolved = manifest_file_set(declared, tables, roots);
    lemma_manifest_file_set(declared, tables, roots);
    assert forall|b: int, j: int|
        0 <= b < declared.len() && 0 <= j < tables[b].order().len() implies #[trigger] is_local(
        keys,
        entries,
        declared,
        tables,
        roots,
        b,
        j,
    ) by {
        let d = declared[b];
        let table = tables[b];
        let f = table.order()[j];
        table.lemma_wf();
        assert(files@[d] == table);
        assert(table@.contains_key(f) && table@[f] == table.items()[j]);
        assert(published.contains_key(d) && published[d] == table@);
        lemma_published_from_entry(entries, d, f);
        let i = choose|i: int|
            0 <= i < entries.len() && (#[trigger] entries[i]).path == d && entries[i].file == f
                && entries[i].metadata == published[d][f];
        assert(roots[b] == resolution(declared[b], home)->Ok_0);
        assert(keys[i] == local_key(roots[b], f));
        assert(is_local_at(keys, entries, declared, tables, roots, b, j, i));
    }
    assert forall|k: Seq<char>| local.deep().contains_key(k) implies resolved.contains_key(k) by {
        let i = keys.index_of(k);
        assert(keys[i] == k);
        lemma_entry_is_published(entries, i);
        let d = entries[i].path;
        let f = entries[i].file;
        assert(table_views(files).contains_key(d));
        let b = declared.index_of(d);
        assert(declared[b] == d);
        let table = tables[b];
        table.lemma_wf();
        assert(files@[d] == table);
        assert(table@.contains_key(f));
        let j = table.order().index_of(f);
        assert(table.order()[j] == f);
        assert(roots[b] == resolution(declared[b], home)->Ok_0);
        assert(resolved.contains_key(local_key(roots[b], tables[b].order()[j])));
    }
    assert forall|k: Seq<char>| resolved.contains_key(k) implies local.deep().contains_key(k)
        && local.deep()[k].metadata == resolved[k].metadata by {
        let (b, j) = choose|b: int, j: int| #[trigger]
            listed_at(declared, tables, roots, b, j, k, resolved[k]);
        assert(is_local(keys, entries, declared, tables, roots, b, j));
        let i = choose|i: int| #[trigger]
            is_local_at(keys, entries, declared, tables, roots, b, j, i);
        assert(keys[i] == k);
        assert(local@.contains_key(keys[i]) && local@[keys[i]] == local.items()[i]);
        assert(local.deep()[k] == entries[i]);
    }
    assert(local.deep().dom() =~= resolved.dom());
    assert(files_equal(local.deep(), resolved));
}

/// A second look after a publish finds nothing to do. Where the local files
/// lie where their declared and relative paths say, as the files of a walk do,
/// and both the repository's manifest and the synced manifest hold the tables
/// that a publish of them records, in whatever order, then with the local
/// files unchanged the decision is to transfer nothing.
pub proof fn lemma_publish_then_no_change(
    local: ResolvedSaveFiles,
    repository: StringMap<SaveFileTable>,
    synced: StringMap<SaveFileTable>,
    home: Option<Seq<char>>,
)
    requires
        local.wf(),
        repository.wf(),
        synced.wf(),
        forall|b: int|
            0 <= b < repository.items().len() ==> (#[trigger] repository.items()[b]).wf(),
        forall|b: int| 0 <= b < synced.items().len() ==> (#[trigger] synced.items()[b]).wf(),
        located(local.order(), entry_views(local), home),
        table_views(repository) == published_files(entry_views(local)),
        table_views(synced) == published_files(entry_views(local)),
    ensures
        resolve_all(repository.order(), home) is Ok,
        resolve_all(synced.order(), home) is Ok,
        decision(
            local.deep(),
            Some(
                manifest_file_set(
                    repository.order(),
                    repository.items(),
                    resolve_all(repository.order(), home)->Ok_0,
                ),
            ),
            Some(
                manifest_file_set(
                    synced.order(),
                    synced.items(),
                    resolve_all(synced.order(), home)->Ok_0,
                ),
            ),
        ) == SyncDecision::Transfer(SyncDirection::DoNothing),
{
    lemma_published_files_resolve(local, repository, home);
    lemma_published_files_resolve(local, synced, home);
    let of_repository = manifest_file_set(
        repository.order(),
        repository.items(),
        resolve_all(repository.order(), home)->Ok_0,
    );
    let of_synced = manifest_file_set(
        synced.order(),
        synced.items(),
        resolve_all(synced.order(), home)->Ok_0,
    );
    lemma_files_equal_symmetric(local.deep(), of_synced);
    lemma_files_equal_transitive(of_synced, local.deep(), of_repository);
}

} // verus!
