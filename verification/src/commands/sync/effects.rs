//! A model of what the steps of a transfer do, and what holds of it. A publish
//! that runs to its end leaves exactly the new version's object tree in the
//! repository, and a publish that stops early leaves the version that the
//! manifest names intact. An apply that runs to its end leaves every file of
//! the version on the device, with its recorded modification time, and nothing
//! else under the declared paths it cleared.

use vstd::prelude::*;
use crate::commands::sync::ResolvedSaveFileView;
use crate::commands::sync::transfer::{
    all_declared, apply_steps, fetch_steps, is_declared, is_version_text, object_path_of, publish_steps, removal_steps,
    store_steps, version_path_of, TransferStepView,
};
use crate::games::paths::{covers, is_absolute, lemma_normalized_components, normalized};
use crate::utils::paths::{
    lemma_path_safe_injective, lemma_path_safe_is_segment, path_safe, relative_joined,
};

verus! {

/// The stores as far as one game goes: the version that the game's manifest
/// in the repository names, if there is a manifest, the objects of the game's
/// version trees in the repository, and the version that the synced manifest
/// on the device names, if there is one.
pub struct GameStore {
    pub manifest: Option<Seq<char>>,
    pub objects: Set<Seq<char>>,
    pub synced: Option<Seq<char>>,
}

/// Whether `object` is `root` or lies in the tree under it.
pub open spec fn lies_under(root: Seq<char>, object: Seq<char>) -> bool {
    object == root || (root + seq!['/']).is_prefix_of(object)
}

/// The stores after one step of a plan for the version `version` has been
/// performed. Storing a file adds its object; writing the repository's
/// manifest makes it name the version, and so does writing the synced
/// manifest; removing a tree removes every object under it; the other steps
/// touch neither the repository nor the synced manifest.
pub open spec fn performed(store: GameStore, version: Seq<char>, step: TransferStepView) -> GameStore {
    match step {
        TransferStepView::StoreFile { local, object } => GameStore {
            objects: store.objects.insert(object),
            ..store
        },
        TransferStepView::WriteRepositoryManifest => GameStore { manifest: Some(version), ..store },
        TransferStepView::WriteSyncedManifest => GameStore { synced: Some(version), ..store },
        TransferStepView::RemoveVersion { path } => GameStore {
            objects: Set::new(|o: Seq<char>| store.objects.contains(o) && !lies_under(path, o)),
            ..store
        },
        _ => store,
    }
}

/// The store after the steps have been performed in order.
pub open spec fn performed_all(store: GameStore, version: Seq<char>, steps: Seq<TransferStepView>) -> GameStore
    decreases steps.len(),
{
    if steps.len() == 0 {
        store
    } else {
        performed(performed_all(store, version, steps.drop_last()), version, steps.last())
    }
}

/// The objects that a publish stores: one for each file.
pub open spec fn stored_objects(
    game: Seq<char>,
    id: Seq<char>,
    entries: Seq<ResolvedSaveFileView>,
    n: int,
) -> Set<Seq<char>> {
    Set::new(
        |o: Seq<char>|
            exists|i: int|
                0 <= i < n && o == object_path_of(
                    game,
                    id,
                    (#[trigger] entries[i]).path,
                    entries[i].file,
                ),
    )
}

/// A relative path extended by another begins with the first, and with the
/// first and a separator where the first is not empty and does not end with a
/// separator.
pub proof fn lemma_relative_joined_prefix(base: Seq<char>, path: Seq<char>)
    ensures
        base.is_prefix_of(relative_joined(base, path)),
        base.len() > 0 && base.last() != '/' ==> (base + seq!['/']).is_prefix_of(
            relative_joined(base, path),
        ),
{
    let r = relative_joined(base, path);
    assert(r.subrange(0, base.len() as int) =~= base);
    if base.len() > 0 && base.last() != '/' {
        assert(r.subrange(0, base.len() as int + 1) =~= base + seq!['/']);
    }
}

/// The path of a version's tree is the game's prefix followed by the text of
/// the version, and does not end with a separator.
pub proof fn lemma_version_path(game: Seq<char>, id: Seq<char>)
    requires
        is_version_text(id),
    ensures
        version_path_of(game, id).len() == relative_joined(game, Seq::<char>::empty()).len() + 36,
        version_path_of(game, id) == relative_joined(game, Seq::<char>::empty()) + id,
        version_path_of(game, id).last() != '/',
{
    let v = version_path_of(game, id);
    assert(id[0] != '/');
    assert(id[35] != '/');
    assert(v =~= relative_joined(game, Seq::<char>::empty()) + id);
    assert(v.last() == id[35]);
}

/// Every object of a version lies under the path of the version's tree.
pub proof fn lemma_object_under_version(
    game: Seq<char>,
    id: Seq<char>,
    declared: Seq<char>,
    file: Seq<char>,
)
    requires
        is_version_text(id),
    ensures
        lies_under(version_path_of(game, id), object_path_of(game, id, declared, file)),
{
    let v = version_path_of(game, id);
    lemma_version_path(game, id);
    let bucket = relative_joined(v, crate::utils::paths::path_safe(declared));
    lemma_relative_joined_prefix(v, crate::utils::paths::path_safe(declared));
    let object = relative_joined(bucket, file);
    lemma_relative_joined_prefix(bucket, file);
    let head = v + seq!['/'];
    assert(head =~= bucket.subrange(0, head.len() as int));
    assert(bucket =~= object.subrange(0, bucket.len() as int));
    assert(head =~= object.subrange(0, head.len() as int));
}

/// The trees of two different versions of a game share no object.
pub proof fn lemma_versions_apart(game: Seq<char>, a: Seq<char>, b: Seq<char>, object: Seq<char>)
    requires
        is_version_text(a),
        is_version_text(b),
        a != b,
    ensures
        !(lies_under(version_path_of(game, a), object) && lies_under(
            version_path_of(game, b),
            object,
        )),
{
    let prefix = relative_joined(game, Seq::<char>::empty());
    let va = version_path_of(game, a);
    let vb = version_path_of(game, b);
    lemma_version_path(game, a);
    lemma_version_path(game, b);
    if lies_under(va, object) && lies_under(vb, object) {
        let n = va.len() as int;
        assert(object.subrange(0, n) =~= va) by {
            if object != va {
                assert((va + seq!['/']) =~= object.subrange(0, n + 1));
                assert(object.subrange(0, n) =~= (va + seq!['/']).subrange(0, n));
            }
        }
        assert(object.subrange(0, n) =~= vb) by {
            if object != vb {
                assert((vb + seq!['/']) =~= object.subrange(0, n + 1));
                assert(object.subrange(0, n) =~= (vb + seq!['/']).subrange(0, n));
            }
        }
        assert(va == vb);
        assert(a =~= va.subrange(prefix.len() as int, n));
        assert(b =~= vb.subrange(prefix.len() as int, n));
        assert(false);
    }
}

/// The objects of a version are kept apart by declared path: two files of a
/// version that lie at the same place in the repository have the same declared
/// path.
pub proof fn lemma_declared_paths_apart(
    game: Seq<char>,
    id: Seq<char>,
    first: Seq<char>,
    first_file: Seq<char>,
    second: Seq<char>,
    second_file: Seq<char>,
)
    requires
        is_version_text(id),
        object_path_of(game, id, first, first_file) == object_path_of(
            game,
            id,
            second,
            second_file,
        ),
    ensures
        first == second,
{
    let v = version_path_of(game, id);
    lemma_version_path(game, id);
    let a = path_safe(first);
    let b = path_safe(second);
    lemma_path_safe_is_segment(first);
    lemma_path_safe_is_segment(second);
    let head = v + seq!['/'];
    let n = head.len() as int;
    let one = relative_joined(v, a);
    let two = relative_joined(v, b);
    assert(one =~= head + a);
    assert(two =~= head + b);
    assert(one.last() == a.last());
    assert(two.last() == b.last());
    let x = object_path_of(game, id, first, first_file);
    let y = object_path_of(game, id, second, second_file);
    lemma_relative_joined_prefix(one, first_file);
    lemma_relative_joined_prefix(two, second_file);
    assert(x.subrange(0, one.len() as int + 1) =~= one + seq!['/']);
    assert(y.subrange(0, two.len() as int + 1) =~= two + seq!['/']);
    if a.len() < b.len() {
        assert(x[n + a.len()] == (one + seq!['/'])[n + a.len()]);
        assert(y[n + a.len()] == (two + seq!['/'])[n + a.len()]);
        assert(y[n + a.len()] == b[a.len() as int]);
        assert(false);
    }
    if b.len() < a.len() {
        assert(y[n + b.len()] == (two + seq!['/'])[n + b.len()]);
        assert(x[n + b.len()] == (one + seq!['/'])[n + b.len()]);
        assert(x[n + b.len()] == a[b.len() as int]);
        assert(false);
    }
    assert(a =~= b) by {
        assert forall|i: int| 0 <= i < a.len() implies a[i] == b[i] by {
            assert(x[n + i] == (one + seq!['/'])[n + i]);
            assert(y[n + i] == (two + seq!['/'])[n + i]);
        }
    }
    lemma_path_safe_injective(first, second);
}

/// The objects of a version are kept apart by file: two files of a version
/// whose relative paths do not begin with a separator, and that lie at the
/// same place in the repository, have the same declared path and the same
/// relative path.
pub proof fn lemma_files_apart(
    game: Seq<char>,
    id: Seq<char>,
    first: Seq<char>,
    first_file: Seq<char>,
    second: Seq<char>,
    second_file: Seq<char>,
)
    requires
        is_version_text(id),
        !(first_file.len() > 0 && first_file[0] == '/'),
        !(second_file.len() > 0 && second_file[0] == '/'),
        object_path_of(game, id, first, first_file) == object_path_of(
            game,
            id,
            second,
            second_file,
        ),
    ensures
        first == second,
        first_file == second_file,
{
    lemma_declared_paths_apart(game, id, first, first_file, second, second_file);
    let v = version_path_of(game, id);
    lemma_version_path(game, id);
    let safe = path_safe(first);
    lemma_path_safe_is_segment(first);
    let bucket = relative_joined(v, safe);
    assert(bucket =~= v + seq!['/'] + safe);
    assert(bucket.last() == safe.last());
    let head = bucket + seq!['/'];
    let x = relative_joined(bucket, first_file);
    let y = relative_joined(bucket, second_file);
    assert(x =~= head + first_file);
    assert(y =~= head + second_file);
    assert(first_file =~= x.subrange(head.len() as int, x.len() as int));
    assert(second_file =~= y.subrange(head.len() as int, y.len() as int));
}

/// While a publish only stores files the manifest stays as it was, every
/// object that was there stays, and the objects stored so far are added.
pub proof fn lemma_stores_performed(
    store: GameStore,
    game: Seq<char>,
    id: Seq<char>,
    locals: Seq<Seq<char>>,
    entries: Seq<ResolvedSaveFileView>,
    previous: Option<Seq<char>>,
    n: int,
)
    requires
        0 <= n <= locals.len(),
        locals.len() == entries.len(),
    ensures
        performed_all(
            store,
            id,
            publish_steps(game, id, locals, entries, previous).subrange(0, n),
        ).manifest == store.manifest,
        performed_all(
            store,
            id,
            publish_steps(game, id, locals, entries, previous).subrange(0, n),
        ).synced == store.synced,
        performed_all(
            store,
            id,
            publish_steps(game, id, locals, entries, previous).subrange(0, n),
        ).objects == store.objects.union(stored_objects(game, id, entries, n)),
    decreases n,
{
    let steps = publish_steps(game, id, locals, entries, previous);
    let done = steps.subrange(0, n);
    if n == 0 {
        assert(store.objects.union(stored_objects(game, id, entries, 0)) =~= store.objects);
    } else {
        lemma_stores_performed(store, game, id, locals, entries, previous, n - 1);
        assert(done.drop_last() =~= steps.subrange(0, n - 1));
        assert(done.last() == steps[n - 1]);
        assert(steps[n - 1] == store_steps(game, id, locals, entries)[n - 1]);
        let object = object_path_of(game, id, entries[n - 1].path, entries[n - 1].file);
        assert(store.objects.union(stored_objects(game, id, entries, n - 1)).insert(object)
            =~= store.objects.union(stored_objects(game, id, entries, n)));
    }
}

/// A publish that stops before it writes the manifest leaves the manifest and
/// the tree of the version it names as they were: whatever number of files has
/// been stored, and whether or not the manifest has been stamped, the
/// repository's manifest and the synced manifest are unchanged, no removal has
/// been performed, nothing that was in the repository is gone, and the tree of
/// the previous version holds what it held.
pub proof fn lemma_publish_aborted(
    store: GameStore,
    game: Seq<char>,
    id: Seq<char>,
    locals: Seq<Seq<char>>,
    entries: Seq<ResolvedSaveFileView>,
    previous: Option<Seq<char>>,
    n: int,
)
    requires
        0 <= n <= locals.len() + 1,
        locals.len() == entries.len(),
        is_version_text(id),
        previous matches Some(old) ==> is_version_text(old) && old != id,
    ensures
        ({
            let after = performed_all(
                store,
                id,
                publish_steps(game, id, locals, entries, previous).subrange(0, n),
            );
            &&& after.manifest == store.manifest
            &&& after.synced == store.synced
            &&& forall|i: int|
                0 <= i < n ==> !(#[trigger] publish_steps(game, id, locals, entries, previous)[i]
                    is RemoveVersion)
            &&& store.objects.subset_of(after.objects)
            &&& previous matches Some(old) ==> forall|o: Seq<char>| #[trigger]
                lies_under(version_path_of(game, old), o) ==> after.objects.contains(o)
                    == store.objects.contains(o)
        }),
{
    let steps = publish_steps(game, id, locals, entries, previous);
    let m = if n <= locals.len() {
        n
    } else {
        locals.len() as int
    };
    lemma_stores_performed(store, game, id, locals, entries, previous, m);
    let after = performed_all(store, id, steps.subrange(0, n));
    if n > locals.len() {
        assert(steps.subrange(0, n).drop_last() =~= steps.subrange(0, m));
        assert(steps.subrange(0, n).last() == steps[m]);
        assert(steps[m] == TransferStepView::StampManifest);
        assert(after == performed_all(store, id, steps.subrange(0, m)));
    }
    assert forall|i: int| 0 <= i < n implies !(#[trigger] steps[i] is RemoveVersion) by {
        if i < locals.len() {
            assert(steps[i] == store_steps(game, id, locals, entries)[i]);
        } else {
            assert(steps[i] == TransferStepView::StampManifest);
        }
    }
    match previous {
        Some(old) => {
            assert forall|o: Seq<char>| #[trigger]
                lies_under(version_path_of(game, old), o) implies after.objects.contains(o)
                == store.objects.contains(o) by {
                if stored_objects(game, id, entries, m).contains(o) {
                    let i = choose|i: int|
                        0 <= i < m && o == object_path_of(
                            game,
                            id,
                            (#[trigger] entries[i]).path,
                            entries[i].file,
                        );
                    lemma_object_under_version(game, id, entries[i].path, entries[i].file);
                    lemma_versions_apart(game, id, old, o);
                }
            }
        },
        None => {},
    }
}

/// A publish that runs to its end leaves exactly one version tree. Where the
/// repository's manifest named the previous version, or there was none, and
/// every object of the game lay under the tree of the previous version, then
/// after all steps the repository's manifest and the synced manifest name the
/// new version, and the objects of the game are exactly the objects stored for
/// the new version, all of which lie under the new version's tree.
pub proof fn lemma_publish_completed(
    store: GameStore,
    game: Seq<char>,
    id: Seq<char>,
    locals: Seq<Seq<char>>,
    entries: Seq<ResolvedSaveFileView>,
    previous: Option<Seq<char>>,
)
    requires
        locals.len() == entries.len(),
        is_version_text(id),
        previous matches Some(old) ==> is_version_text(old) && old != id,
        store.manifest == previous,
        forall|o: Seq<char>|
            store.objects.contains(o) ==> previous is Some && lies_under(
                version_path_of(game, previous->Some_0),
                o,
            ),
    ensures
        ({
            let after = performed_all(
                store,
                id,
                publish_steps(game, id, locals, entries, previous),
            );
            &&& after.manifest == Some(id)
            &&& after.synced == Some(id)
            &&& after.objects == stored_objects(game, id, entries, locals.len() as int)
            &&& forall|o: Seq<char>|
                after.objects.contains(o) ==> lies_under(version_path_of(game, id), o)
        }),
{
    let steps = publish_steps(game, id, locals, entries, previous);
    let n = locals.len() as int;
    let stores = steps.subrange(0, n);
    let stored = performed_all(store, id, stores);
    lemma_stores_performed(store, game, id, locals, entries, previous, n);
    let stamp = steps.subrange(0, n + 1);
    let first = steps.subrange(0, n + 2);
    let second = steps.subrange(0, n + 3);
    assert(steps[n] == TransferStepView::StampManifest);
    assert(steps[n + 1] == TransferStepView::WriteRepositoryManifest);
    assert(steps[n + 2] == TransferStepView::WriteSyncedManifest);
    assert(stamp.drop_last() =~= stores);
    assert(stamp.last() == steps[n]);
    assert(first.drop_last() =~= stamp);
    assert(first.last() == steps[n + 1]);
    assert(second.drop_last() =~= first);
    assert(second.last() == steps[n + 2]);
    let stamped = performed_all(store, id, stamp);
    assert(stamped == performed(stored, id, TransferStepView::StampManifest));
    let marked = performed_all(store, id, first);
    assert(marked == performed(stamped, id, TransferStepView::WriteRepositoryManifest));
    let written = performed_all(store, id, second);
    assert(written == performed(marked, id, TransferStepView::WriteSyncedManifest));
    assert(written.manifest == Some(id));
    assert(written.objects == stored.objects);
    let news = stored_objects(game, id, entries, n);
    assert forall|o: Seq<char>| news.contains(o) implies lies_under(version_path_of(game, id), o) by {
        let i = choose|i: int|
            0 <= i < n && o == object_path_of(game, id, (#[trigger] entries[i]).path, entries[i].file);
        lemma_object_under_version(game, id, entries[i].path, entries[i].file);
    }
    match previous {
        Some(old) => {
            assert(steps.len() == n + 4);
            assert(steps.drop_last() =~= second);
            assert(steps.last() == TransferStepView::RemoveVersion {
                path: version_path_of(game, old),
            });
            let after = performed_all(store, id, steps);
            assert(after.objects =~= news) by {
                assert forall|o: Seq<char>| news.contains(o) implies !lies_under(
                    version_path_of(game, old),
                    o,
                ) by {
                    lemma_versions_apart(game, id, old, o);
                }
            }
        },
        None => {
            assert(steps =~= second);
            assert(store.objects =~= Set::<Seq<char>>::empty());
            assert(written.objects =~= news);
        },
    }
}

/// A file on the device: its bytes and its modification time.
pub struct DiskFile {
    pub bytes: Seq<u8>,
    pub modified: i128,
}

/// The files on the device by their path.
pub type Disk = Map<Seq<char>, DiskFile>;

/// The device's files after one step of a plan has been performed, with
/// `objects` the bytes of the repository's objects. Removing a local path
/// removes every file that the path is or is an ancestor of; fetching a file
/// puts the bytes of its object at its local path, with the recorded
/// modification time; the other steps do not touch the device's save files.
pub open spec fn applied(disk: Disk, objects: Map<Seq<char>, Seq<u8>>, step: TransferStepView) -> Disk {
    match step {
        TransferStepView::RemoveLocal { path } => Map::new(
            |k: Seq<char>| disk.contains_key(k) && !covers(path, k),
            |k: Seq<char>| disk[k],
        ),
        TransferStepView::FetchFile { object, local, modified } => disk.insert(
            local,
            DiskFile { bytes: objects[object], modified: modified },
        ),
        _ => disk,
    }
}

/// The device's files after the steps have been performed in order.
pub open spec fn applied_all(
    disk: Disk,
    objects: Map<Seq<char>, Seq<u8>>,
    steps: Seq<TransferStepView>,
) -> Disk
    decreases steps.len(),
{
    if steps.len() == 0 {
        disk
    } else {
        applied(applied_all(disk, objects, steps.drop_last()), objects, steps.last())
    }
}

/// Whether an apply clears the path `k`: a resolved declared path that is not
/// itself one of the files to apply is `k` or one of its ancestors.
pub open spec fn cleared(roots: Seq<Seq<char>>, present: Set<Seq<char>>, k: Seq<char>) -> bool {
    exists|r: int|
        0 <= r < roots.len() && !present.contains(normalized(#[trigger] roots[r])) && covers(
            normalized(roots[r]),
            k,
        )
}

/// Performing two lists of steps in a row is performing the first and then the
/// second.
pub proof fn lemma_applied_in_a_row(
    disk: Disk,
    objects: Map<Seq<char>, Seq<u8>>,
    first: Seq<TransferStepView>,
    second: Seq<TransferStepView>,
)
    ensures
        applied_all(disk, objects, first + second) == applied_all(
            applied_all(disk, objects, first),
            objects,
            second,
        ),
    decreases second.len(),
{
    if second.len() == 0 {
        assert(first + second =~= first);
    } else {
        lemma_applied_in_a_row(disk, objects, first, second.drop_last());
        assert((first + second).drop_last() =~= first + second.drop_last());
        assert((first + second).last() == second.last());
    }
}

/// A path is cleared for a list of declared paths when it is cleared for the
/// list without its last, or by the last.
pub proof fn lemma_cleared_by_last(roots: Seq<Seq<char>>, present: Set<Seq<char>>, k: Seq<char>)
    requires
        roots.len() > 0,
    ensures
        cleared(roots, present, k) <==> (cleared(roots.drop_last(), present, k) || (
        !present.contains(normalized(roots.last())) && covers(normalized(roots.last()), k))),
{
    let before_roots = roots.drop_last();
    let root = normalized(roots.last());
    if cleared(before_roots, present, k) {
        let r = choose|r: int|
            0 <= r < before_roots.len() && !present.contains(normalized(#[trigger] before_roots[r]))
                && covers(normalized(before_roots[r]), k);
        assert(roots[r] == before_roots[r]);
    }
    if !present.contains(root) && covers(root, k) {
        assert(roots[roots.len() - 1] == roots.last());
    }
    if cleared(roots, present, k) {
        let r = choose|r: int|
            0 <= r < roots.len() && !present.contains(normalized(#[trigger] roots[r]))
                && covers(normalized(roots[r]), k);
        if r < roots.len() - 1 {
            assert(before_roots[r] == roots[r]);
        }
    }
}

/// The removals of an apply take away exactly what the apply clears.
pub proof fn lemma_removals_applied(
    disk: Disk,
    objects: Map<Seq<char>, Seq<u8>>,
    roots: Seq<Seq<char>>,
    present: Set<Seq<char>>,
)
    ensures
        applied_all(disk, objects, removal_steps(roots, present)) == Map::new(
            |k: Seq<char>| disk.contains_key(k) && !cleared(roots, present, k),
            |k: Seq<char>| disk[k],
        ),
    decreases roots.len(),
{
    let after = applied_all(disk, objects, removal_steps(roots, present));
    let expected = Map::new(
        |k: Seq<char>| disk.contains_key(k) && !cleared(roots, present, k),
        |k: Seq<char>| disk[k],
    );
    if roots.len() == 0 {
        assert(after =~= expected);
    } else {
        let before_roots = roots.drop_last();
        lemma_removals_applied(disk, objects, before_roots, present);
        let before = applied_all(disk, objects, removal_steps(before_roots, present));
        let root = normalized(roots.last());
        if present.contains(root) {
            assert(removal_steps(roots, present) == removal_steps(before_roots, present));
            assert forall|k: Seq<char>| before.contains_key(k) == expected.contains_key(k) by {
                lemma_cleared_by_last(roots, present, k);
            }
            assert(after =~= expected);
        } else {
            let steps = removal_steps(roots, present);
            assert(steps.drop_last() =~= removal_steps(before_roots, present));
            assert(steps.last() == TransferStepView::RemoveLocal { path: root });
            assert(after == applied(before, objects, steps.last()));
            assert forall|k: Seq<char>| after.contains_key(k) == expected.contains_key(k) by {
                lemma_cleared_by_last(roots, present, k);
            }
            assert(after =~= expected);
        }
    }
}

/// After the first `n` fetches of an apply each of the first `n` files is on
/// the device with the bytes of its object and its recorded modification
/// time, and every other path is as it was.
pub proof fn lemma_fetches_applied(
    disk: Disk,
    objects: Map<Seq<char>, Seq<u8>>,
    game: Seq<char>,
    id: Seq<char>,
    locals: Seq<Seq<char>>,
    entries: Seq<ResolvedSaveFileView>,
    n: int,
)
    requires
        0 <= n <= locals.len(),
        locals.len() == entries.len(),
        locals.no_duplicates(),
        forall|i: int|
            0 <= i < entries.len() ==> objects.contains_key(
                object_path_of(game, id, (#[trigger] entries[i]).path, entries[i].file),
            ),
    ensures
        ({
            let after = applied_all(
                disk,
                objects,
                fetch_steps(game, id, locals, entries).subrange(0, n),
            );
            &&& forall|i: int|
                0 <= i < n ==> after.contains_key(#[trigger] locals[i]) && after[locals[i]] == (
                DiskFile {
                    bytes: objects[object_path_of(game, id, entries[i].path, entries[i].file)],
                    modified: entries[i].metadata.modified,
                })
            &&& forall|k: Seq<char>|
                !locals.subrange(0, n).contains(k) ==> (#[trigger] after.contains_key(k))
                    == disk.contains_key(k) && (disk.contains_key(k) ==> after[k] == disk[k])
        }),
    decreases n,
{
    let steps = fetch_steps(game, id, locals, entries);
    if n == 0 {
        assert(steps.subrange(0, 0) =~= Seq::<TransferStepView>::empty());
    } else {
        lemma_fetches_applied(disk, objects, game, id, locals, entries, n - 1);
        let before = applied_all(disk, objects, steps.subrange(0, n - 1));
        let after = applied_all(disk, objects, steps.subrange(0, n));
        assert(steps.subrange(0, n).drop_last() =~= steps.subrange(0, n - 1));
        assert(steps.subrange(0, n).last() == steps[n - 1]);
        let file = DiskFile {
            bytes: objects[object_path_of(game, id, entries[n - 1].path, entries[n - 1].file)],
            modified: entries[n - 1].metadata.modified,
        };
        assert(steps[n - 1] == TransferStepView::FetchFile {
            object: object_path_of(game, id, entries[n - 1].path, entries[n - 1].file),
            local: locals[n - 1],
            modified: entries[n - 1].metadata.modified,
        });
        assert(after == before.insert(locals[n - 1], file));
        assert forall|i: int| 0 <= i < n implies after.contains_key(#[trigger] locals[i])
            && after[locals[i]] == (DiskFile {
            bytes: objects[object_path_of(game, id, entries[i].path, entries[i].file)],
            modified: entries[i].metadata.modified,
        }) by {
            if i < n - 1 {
                assert(locals[i] != locals[n - 1]);
                assert(before.contains_key(locals[i]));
            }
        }
        assert forall|k: Seq<char>| !locals.subrange(0, n).contains(k) implies (
        #[trigger] after.contains_key(k)) == disk.contains_key(k) && (disk.contains_key(k)
            ==> after[k] == disk[k]) by {
            assert(locals.subrange(0, n)[n - 1] == locals[n - 1]);
            assert(k != locals[n - 1]);
            let shorter = locals.subrange(0, n - 1);
            if shorter.contains(k) {
                let i = shorter.index_of(k);
                assert(locals.subrange(0, n)[i] == k);
            }
            assert(before.contains_key(k) == disk.contains_key(k));
        }
    }
}

/// An apply that runs to its end leaves the version's files on the device.
/// Where the files to apply have distinct local paths and the repository holds
/// the object of each, then after all steps each of them is on the device with
/// the bytes of its object and its recorded modification time, and any other
/// path is there exactly if it was there before and the apply did not clear
/// it, unchanged. So under a declared path that the apply cleared, exactly the
/// files of the version remain. And where every file to apply lies at or under
/// a resolved declared path, as the files of a plan do, nothing outside the
/// declared paths is removed or written.
pub proof fn lemma_apply_completed(
    disk: Disk,
    objects: Map<Seq<char>, Seq<u8>>,
    game: Seq<char>,
    id: Seq<char>,
    roots: Seq<Seq<char>>,
    locals: Seq<Seq<char>>,
    entries: Seq<ResolvedSaveFileView>,
)
    requires
        locals.len() == entries.len(),
        locals.no_duplicates(),
        forall|i: int|
            0 <= i < entries.len() ==> objects.contains_key(
                object_path_of(game, id, (#[trigger] entries[i]).path, entries[i].file),
            ),
    ensures
        ({
            let after = applied_all(disk, objects, apply_steps(game, id, roots, locals, entries));
            &&& forall|i: int|
                0 <= i < locals.len() ==> after.contains_key(#[trigger] locals[i])
                    && after[locals[i]] == (DiskFile {
                    bytes: objects[object_path_of(game, id, entries[i].path, entries[i].file)],
                    modified: entries[i].metadata.modified,
                })
            &&& forall|k: Seq<char>|
                !locals.contains(k) ==> (#[trigger] after.contains_key(k) <==> disk.contains_key(k)
                    && !cleared(roots, locals.to_set(), k)) && (after.contains_key(k) ==> after[k]
                    == disk[k])
            &&& forall|k: Seq<char>|
                cleared(roots, locals.to_set(), k) ==> (#[trigger] after.contains_key(k)
                    <==> locals.contains(k))
            &&& all_declared(roots, locals) ==> forall|k: Seq<char>|
                !is_declared(roots, k) ==> (#[trigger] after.contains_key(k)) == disk.contains_key(
                    k,
                ) && (after.contains_key(k) ==> after[k] == disk[k])
        }),
{
    let removals = removal_steps(roots, locals.to_set());
    let fetches = fetch_steps(game, id, locals, entries);
    let last = seq![TransferStepView::StampManifest, TransferStepView::WriteSyncedManifest];
    let steps = apply_steps(game, id, roots, locals, entries);
    let swept = applied_all(disk, objects, removals);
    lemma_removals_applied(disk, objects, roots, locals.to_set());
    lemma_fetches_applied(swept, objects, game, id, locals, entries, locals.len() as int);
    assert(fetches.subrange(0, locals.len() as int) =~= fetches);
    let fetched = applied_all(swept, objects, fetches);
    lemma_applied_in_a_row(disk, objects, removals, fetches);
    lemma_applied_in_a_row(disk, objects, removals + fetches, last);
    let stamp = last.drop_last();
    assert(stamp.drop_last() =~= Seq::<TransferStepView>::empty());
    assert(applied_all(fetched, objects, stamp) == applied(
        applied_all(fetched, objects, stamp.drop_last()),
        objects,
        stamp.last(),
    ));
    assert(applied_all(fetched, objects, last) == applied(
        applied_all(fetched, objects, stamp),
        objects,
        last.last(),
    ));
    let after = applied_all(disk, objects, steps);
    assert(steps == removals + fetches + last);
    assert(after == fetched);
    assert(locals.subrange(0, locals.len() as int) =~= locals);
    assert forall|k: Seq<char>| !locals.contains(k) implies (#[trigger] after.contains_key(k)
        <==> disk.contains_key(k) && !cleared(roots, locals.to_set(), k)) && (after.contains_key(k)
        ==> after[k] == disk[k]) by {
        assert(fetched.contains_key(k) == swept.contains_key(k));
        if swept.contains_key(k) {
            assert(fetched[k] == swept[k]);
        }
    }
    assert forall|k: Seq<char>| cleared(roots, locals.to_set(), k) implies (
    #[trigger] after.contains_key(k) <==> locals.contains(k)) by {
        if locals.contains(k) {
            let i = locals.index_of(k);
            assert(after.contains_key(locals[i]));
        } else {
            assert(fetched.contains_key(k) == swept.contains_key(k));
        }
    }
    if all_declared(roots, locals) {
        assert forall|k: Seq<char>| !is_declared(roots, k) implies (
        #[trigger] after.contains_key(k)) == disk.contains_key(k) && (after.contains_key(k)
            ==> after[k] == disk[k]) by {
            if locals.contains(k) {
                let i = locals.index_of(k);
                assert(is_declared(roots, locals[i]));
            }
            if cleared(roots, locals.to_set(), k) {
                let r = choose|r: int|
                    0 <= r < roots.len() && !locals.to_set().contains(
                        normalized(#[trigger] roots[r]),
                    ) && covers(normalized(roots[r]), k);
                if is_absolute(roots[r]) {
                    lemma_normalized_components(roots[r]);
                }
                assert(covers(roots[r], k));
            }
        }
    }
}

} // verus!
