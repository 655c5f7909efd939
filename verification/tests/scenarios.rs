use std::collections::BTreeMap;

use game_save_sync::commands::sync::conflict::ConflictPrompt;
use game_save_sync::commands::sync::snapshot::{LocalEntry, LocalWalk};
use game_save_sync::commands::sync::transfer::{application, publication, TransferPlan, TransferStep};
use game_save_sync::commands::sync::{
    load_state, sync_game, ManifestState, ResolvedSaveFiles, SyncDirection, SyncStage,
};
use game_save_sync::games::definition::{GameDefinition, GameDefinitionPath};
use game_save_sync::games::manifest::{
    repository_manifest_path, GameSaveFileMetadata, GameSaveManifest, Timestamp,
};
use game_save_sync::games::GamePlatform;

const HOME: &str = "/home/alice";
const V1: &str = "11111111-1111-4111-8111-111111111111";
const V2: &str = "22222222-2222-4222-8222-222222222222";

/// A device and a repository held in memory: local files with their bytes and
/// modification times, the objects of the repository, and the two manifests
/// of the game.
struct World {
    local: BTreeMap<String, (Vec<u8>, i128)>,
    objects: BTreeMap<String, Vec<u8>>,
    repository_manifest: Option<GameSaveManifest>,
    synced_manifest: Option<GameSaveManifest>,
    fail_store_of: Option<String>,
}

fn world() -> World {
    World {
        local: BTreeMap::new(),
        objects: BTreeMap::new(),
        repository_manifest: None,
        synced_manifest: None,
        fail_store_of: None,
    }
}

fn definition() -> GameDefinition {
    GameDefinition {
        name: "Foo".to_string(),
        platform: GamePlatform::Linux,
        paths: vec![GameDefinitionPath { path: "~/Saves".to_string() }],
        steam_app_id: None,
    }
}

fn copy_of(manifest: &GameSaveManifest) -> GameSaveManifest {
    manifest.restamped(manifest.timestamp)
}

fn look(world: &World, path: &str) -> LocalEntry {
    if let Some((bytes, modified)) = world.local.get(path) {
        return LocalEntry::File {
            metadata: GameSaveFileMetadata { modified: *modified, size: bytes.len() as u64 },
        };
    }
    let prefix = format!("{}/", path);
    let mut children: Vec<String> = Vec::new();
    for known in world.local.keys() {
        if let Some(rest) = known.strip_prefix(&prefix) {
            let name = rest.split('/').next().unwrap().to_string();
            if !children.contains(&name) {
                children.push(name);
            }
        }
    }
    if children.is_empty() {
        LocalEntry::Missing
    } else {
        LocalEntry::Directory { children }
    }
}

fn snapshot(world: &World) -> ResolvedSaveFiles {
    let mut walk = LocalWalk::new(&definition(), Some(HOME));
    let mut observed: Option<LocalEntry> = None;
    loop {
        match walk.advance(observed) {
            Ok(Some(path)) => observed = Some(look(world, &path)),
            Ok(None) => return walk.finish(),
            Err(_) => panic!("the walk failed"),
        }
    }
}

fn under(root: &str, path: &str) -> bool {
    path == root || path.starts_with(&format!("{}/", root))
}

/// Performs the steps of a plan in order and stops at the first that fails.
/// The clock shows `now`.
fn carry_out(world: &mut World, plan: &mut TransferPlan, now: i128) -> Result<usize, String> {
    let mut done = 0;
    loop {
        let step = match plan.next_step(done) {
            Some(TransferStep::StampManifest) => {
                plan.stamped(Timestamp { unix_nanos: now, offset_seconds: 0 });
                done += 1;
                continue;
            }
            Some(step) => step,
            None => break,
        };
        match step {
            TransferStep::StampManifest => unreachable!("the stamp is performed on the plan"),
            TransferStep::StoreFile { local, object } => {
                if world.fail_store_of.as_deref() == Some(local.as_str()) {
                    return Err(format!("failed to copy {} to repository", local));
                }
                let (bytes, _) = world.local.get(local).ok_or("no such local file")?;
                world.objects.insert(object.clone(), bytes.clone());
            }
            TransferStep::WriteRepositoryManifest => {
                world.repository_manifest = Some(copy_of(&plan.manifest));
            }
            TransferStep::WriteSyncedManifest => {
                world.synced_manifest = Some(copy_of(&plan.manifest));
            }
            TransferStep::RemoveVersion { path } => {
                world.objects.retain(|object, _| !under(path, object));
            }
            TransferStep::RemoveLocal { path } => {
                world.local.retain(|local, _| !under(path, local));
            }
            TransferStep::FetchFile { object, local, modified } => {
                let bytes = world.objects.get(object).ok_or("no such object")?;
                world.local.insert(local.clone(), (bytes.clone(), *modified));
            }
        }
        done += 1;
    }
    Ok(done)
}

fn states(world: &World) -> (Option<ManifestState>, Option<ManifestState>) {
    let load = |m: &Option<GameSaveManifest>| -> Option<ManifestState> {
        m.as_ref().map(|m| load_state(copy_of(m), Some(HOME)).unwrap_or_else(|e| panic!("{:?}", e.kind)))
    };
    (load(&world.repository_manifest), load(&world.synced_manifest))
}

enum Stage {
    Settled(SyncDirection),
    Ask(ConflictPrompt),
}

fn compare(world: &World) -> Stage {
    let local = snapshot(world);
    let (repository, synced) = states(world);
    match sync_game("Foo", &local, repository.as_ref(), synced.as_ref()) {
        SyncStage::Settled { direction } => Stage::Settled(direction),
        SyncStage::Ask { prompt } => Stage::Ask(prompt),
    }
}

fn settled(world: &World) -> SyncDirection {
    match compare(world) {
        Stage::Settled(direction) => direction,
        Stage::Ask(prompt) => panic!("asked: {}", prompt.message),
    }
}

fn publish(world: &mut World, id: &str, at: i128) -> Result<usize, String> {
    let local = snapshot(world);
    let previous = world.repository_manifest.as_ref().map(|m| m.id.clone());
    let mut plan = publication(&definition(), &local, previous.as_deref(), id.to_string(), false);
    carry_out(world, &mut plan, at)
}

fn apply(world: &mut World, at: i128, dry_run: bool) -> Result<usize, String> {
    let (repository, _) = states(world);
    let repository = repository.expect("a repository manifest");
    let mut plan = application(&repository.manifest, &repository.files, Some(HOME), dry_run)
        .unwrap_or_else(|e| panic!("{}", e.message()));
    carry_out(world, &mut plan, at)
}

fn versions_in(world: &World) -> Vec<String> {
    let mut versions: Vec<String> = Vec::new();
    for object in world.objects.keys() {
        let mut parts = object.split('/');
        assert_eq!(parts.next(), Some("Foo"));
        let version = parts.next().unwrap().to_string();
        if !versions.contains(&version) {
            versions.push(version);
        }
    }
    versions
}

#[test]
fn a_game_never_published_is_published() {
    let mut w = world();
    w.local.insert("/home/alice/Saves/save.dat".to_string(), (b"hello".to_vec(), 10));
    assert_eq!(settled(&w), SyncDirection::ToRepository);
    assert_eq!(publish(&mut w, V1, 100), Ok(4));
    assert_eq!(w.objects.get(&format!("Foo/{}/~%2FSaves/save.dat", V1)), Some(&b"hello".to_vec()));
    assert_eq!(repository_manifest_path("Foo"), "Foo/manifest.toml");
    let repository = w.repository_manifest.as_ref().expect("a repository manifest");
    let synced = w.synced_manifest.as_ref().expect("a synced manifest");
    assert_eq!(repository.id, V1);
    assert_eq!(synced.id, V1);
    assert_eq!(synced.timestamp, repository.timestamp);
    assert_eq!(
        repository.files.get("~/Saves").unwrap().get("save.dat"),
        Some(&GameSaveFileMetadata { modified: 10, size: 5 })
    );
    assert_eq!(
        synced.files.get("~/Saves").unwrap().get("save.dat"),
        Some(&GameSaveFileMetadata { modified: 10, size: 5 })
    );
}

#[test]
fn a_change_of_the_repository_alone_is_applied() {
    let mut w = world();
    w.local.insert("/home/alice/Saves/save.dat".to_string(), (b"old".to_vec(), 10));
    w.local.insert("/home/alice/Saves/stale.tmp".to_string(), (b"x".to_vec(), 11));
    publish(&mut w, V1, 100).unwrap();
    // Another device publishes a newer version.
    let mut other = world();
    other.local.insert("/home/alice/Saves/save.dat".to_string(), (b"newer!".to_vec(), 50));
    other.local.insert("/home/alice/Saves/slot/two".to_string(), (b"2".to_vec(), 60));
    other.objects = w.objects.clone();
    other.repository_manifest = w.repository_manifest.as_ref().map(copy_of);
    other.synced_manifest = w.synced_manifest.as_ref().map(copy_of);
    publish(&mut other, V2, 200).unwrap();
    w.objects = other.objects.clone();
    w.repository_manifest = other.repository_manifest.as_ref().map(copy_of);
    assert_eq!(settled(&w), SyncDirection::FromRepository);
    assert_eq!(apply(&mut w, 300, false), Ok(5));
    assert_eq!(w.local.get("/home/alice/Saves/save.dat"), Some(&(b"newer!".to_vec(), 50)));
    assert_eq!(w.local.get("/home/alice/Saves/slot/two"), Some(&(b"2".to_vec(), 60)));
    assert_eq!(w.local.get("/home/alice/Saves/stale.tmp"), None);
    assert_eq!(w.local.len(), 2);
    let synced = w.synced_manifest.as_ref().unwrap();
    assert_eq!(synced.id, V2);
    assert_eq!(synced.timestamp, Timestamp { unix_nanos: 300, offset_seconds: 0 });
    assert_eq!(w.repository_manifest.as_ref().unwrap().timestamp.unix_nanos, 200);
    assert_eq!(settled(&w), SyncDirection::DoNothing);
}

#[test]
fn a_local_change_of_size_alone_is_published_and_the_old_version_removed() {
    let mut w = world();
    w.local.insert("/home/alice/Saves/save.dat".to_string(), (b"hello".to_vec(), 10));
    publish(&mut w, V1, 100).unwrap();
    assert_eq!(versions_in(&w), vec![V1.to_string()]);
    w.local.insert("/home/alice/Saves/save.dat".to_string(), (b"hello again".to_vec(), 10));
    assert_eq!(settled(&w), SyncDirection::ToRepository);
    assert_eq!(publish(&mut w, V2, 200), Ok(5));
    assert_eq!(versions_in(&w), vec![V2.to_string()]);
    assert!(!w.objects.keys().any(|o| o.starts_with(&format!("Foo/{}", V1))));
    assert_eq!(
        w.objects.get(&format!("Foo/{}/~%2FSaves/save.dat", V2)),
        Some(&b"hello again".to_vec())
    );
    assert_eq!(w.repository_manifest.as_ref().unwrap().id, V2);
    assert_eq!(w.synced_manifest.as_ref().unwrap().id, V2);
}

#[test]
fn a_change_on_both_sides_is_a_conflict_and_doing_nothing_changes_nothing() {
    let mut w = world();
    w.local.insert("/home/alice/Saves/save.dat".to_string(), (b"hello".to_vec(), 10));
    publish(&mut w, V1, 100).unwrap();
    let mut other = world();
    other.local.insert("/home/alice/Saves/save.dat".to_string(), (b"theirs".to_vec(), 50));
    other.objects = w.objects.clone();
    other.repository_manifest = w.repository_manifest.as_ref().map(copy_of);
    other.synced_manifest = w.synced_manifest.as_ref().map(copy_of);
    publish(&mut other, V2, 200).unwrap();
    w.objects = other.objects.clone();
    w.repository_manifest = other.repository_manifest.as_ref().map(copy_of);
    w.local.insert("/home/alice/Saves/save.dat".to_string(), (b"mine!".to_vec(), 40));
    let local_before = w.local.clone();
    let objects_before = w.objects.clone();
    let prompt = match compare(&w) {
        Stage::Ask(prompt) => prompt,
        Stage::Settled(direction) => panic!("settled: {:?}", direction),
    };
    assert!(prompt.message.starts_with("Foo has changed here and in the repository"));
    assert_eq!(prompt.choices.len(), 3);
    assert_eq!(prompt.choices[0].label, "Do nothing");
    let direction = prompt.direction(0).unwrap();
    assert_eq!(direction, SyncDirection::DoNothing);
    let local = snapshot(&w);
    let (repository, _) = states(&w);
    let args = game_save_sync::commands::sync::SyncArgs { game: None, dry_run: false };
    match game_save_sync::commands::sync::transfer(
        direction,
        &definition(),
        &local,
        repository.as_ref(),
        Some(HOME),
        &args,
    ) {
        Ok(None) => {}
        _ => panic!("something was planned"),
    }
    assert_eq!(w.local, local_before);
    assert_eq!(w.objects, objects_before);
    assert_eq!(w.repository_manifest.as_ref().unwrap().id, V2);
    assert_eq!(w.repository_manifest.as_ref().unwrap().timestamp.unix_nanos, 200);
    assert_eq!(w.synced_manifest.as_ref().unwrap().id, V1);
    assert_eq!(w.synced_manifest.as_ref().unwrap().timestamp.unix_nanos, 100);
    assert_eq!(prompt.direction(1), Some(SyncDirection::ToRepository));
    assert_eq!(prompt.direction(2), Some(SyncDirection::FromRepository));
}

#[test]
fn a_game_never_synced_here_is_a_conflict() {
    let mut other = world();
    other.local.insert("/home/alice/Saves/save.dat".to_string(), (b"theirs".to_vec(), 50));
    publish(&mut other, V1, 100).unwrap();
    let mut w = world();
    w.objects = other.objects.clone();
    w.repository_manifest = other.repository_manifest.as_ref().map(copy_of);
    match compare(&w) {
        Stage::Ask(prompt) => assert_eq!(prompt.message, "Foo has not been synced to this device"),
        Stage::Settled(direction) => panic!("settled: {:?}", direction),
    }
    w.local.insert("/home/alice/Saves/save.dat".to_string(), (b"theirs".to_vec(), 50));
    match compare(&w) {
        Stage::Ask(prompt) => assert_eq!(prompt.message, "Foo has not been synced to this device"),
        Stage::Settled(direction) => panic!("settled: {:?}", direction),
    }
}

#[test]
fn publishing_twice_without_a_local_change_publishes_once() {
    let mut w = world();
    w.local.insert("/home/alice/Saves/save.dat".to_string(), (b"hello".to_vec(), 10));
    w.local.insert("/home/alice/Saves/slot/a/deep.bin".to_string(), (vec![0u8; 64], 20));
    assert_eq!(settled(&w), SyncDirection::ToRepository);
    publish(&mut w, V1, 100).unwrap();
    assert_eq!(settled(&w), SyncDirection::DoNothing);
    assert_eq!(settled(&w), SyncDirection::DoNothing);
    assert_eq!(w.repository_manifest.as_ref().unwrap().id, V1);
}

#[test]
fn publishing_no_files_is_also_followed_by_no_change() {
    let mut w = world();
    assert_eq!(settled(&w), SyncDirection::ToRepository);
    publish(&mut w, V1, 100).unwrap();
    assert_eq!(settled(&w), SyncDirection::DoNothing);
}

#[test]
fn after_a_publish_exactly_one_version_tree_exists() {
    let mut w = world();
    w.local.insert("/home/alice/Saves/a".to_string(), (b"1".to_vec(), 10));
    w.local.insert("/home/alice/Saves/b".to_string(), (b"2".to_vec(), 20));
    publish(&mut w, V1, 100).unwrap();
    assert_eq!(versions_in(&w), vec![V1.to_string()]);
    assert_eq!(w.objects.len(), 2);
    w.local.remove("/home/alice/Saves/b");
    w.local.insert("/home/alice/Saves/c".to_string(), (b"3".to_vec(), 30));
    publish(&mut w, V2, 200).unwrap();
    assert_eq!(versions_in(&w), vec![V2.to_string()]);
    assert_eq!(
        w.objects.keys().cloned().collect::<Vec<String>>(),
        vec![format!("Foo/{}/~%2FSaves/a", V2), format!("Foo/{}/~%2FSaves/c", V2)]
    );
    assert_eq!(w.repository_manifest.as_ref().unwrap().id, V2);
}

#[test]
fn a_publish_aborted_while_copying_leaves_the_previous_version_and_manifest() {
    let mut w = world();
    w.local.insert("/home/alice/Saves/a".to_string(), (b"1".to_vec(), 10));
    w.local.insert("/home/alice/Saves/b".to_string(), (b"2".to_vec(), 20));
    publish(&mut w, V1, 100).unwrap();
    let old_objects: BTreeMap<String, Vec<u8>> = w.objects.clone();
    w.local.insert("/home/alice/Saves/a".to_string(), (b"changed".to_vec(), 30));
    w.local.insert("/home/alice/Saves/b".to_string(), (b"changed too".to_vec(), 40));
    let local = snapshot(&w);
    w.fail_store_of = Some(local.key(1).clone());
    assert!(publish(&mut w, V2, 200).is_err());
    assert_eq!(w.repository_manifest.as_ref().unwrap().id, V1);
    assert_eq!(w.repository_manifest.as_ref().unwrap().timestamp.unix_nanos, 100);
    assert_eq!(w.synced_manifest.as_ref().unwrap().id, V1);
    for (object, bytes) in &old_objects {
        assert_eq!(w.objects.get(object), Some(bytes));
    }
    let under_old: Vec<&String> =
        w.objects.keys().filter(|o| under(&format!("Foo/{}", V1), o)).collect();
    assert_eq!(under_old.len(), old_objects.len());
    // The next attempt still sees a local change and publishes.
    w.fail_store_of = None;
    assert_eq!(settled(&w), SyncDirection::ToRepository);
}

#[test]
fn a_dry_run_changes_nothing() {
    let mut w = world();
    w.local.insert("/home/alice/Saves/a".to_string(), (b"1".to_vec(), 10));
    let local = snapshot(&w);
    let mut plan = publication(&definition(), &local, None, V1.to_string(), true);
    assert_eq!(carry_out(&mut w, &mut plan, 1), Ok(0));
    assert!(w.objects.is_empty());
    assert!(w.repository_manifest.is_none());
    assert!(w.synced_manifest.is_none());
    assert_eq!(plan.steps.len(), 4);
    publish(&mut w, V1, 100).unwrap();
    w.local.insert("/home/alice/Saves/extra".to_string(), (b"x".to_vec(), 99));
    let before = w.local.clone();
    assert_eq!(apply(&mut w, 5, true), Ok(0));
    assert_eq!(w.local, before);
    assert_eq!(w.synced_manifest.as_ref().unwrap().timestamp.unix_nanos, 100);
}

#[test]
fn applied_files_compare_equal_without_another_copy() {
    let mut other = world();
    other.local.insert("/home/alice/Saves/save.dat".to_string(), (b"theirs".to_vec(), 50));
    publish(&mut other, V1, 100).unwrap();
    let mut w = world();
    w.objects = other.objects.clone();
    w.repository_manifest = other.repository_manifest.as_ref().map(copy_of);
    w.local.insert("/home/alice/Saves/leftover".to_string(), (b"x".to_vec(), 1));
    apply(&mut w, 150, false).unwrap();
    assert_eq!(w.local.len(), 1);
    assert_eq!(w.local.get("/home/alice/Saves/save.dat"), Some(&(b"theirs".to_vec(), 50)));
    assert_eq!(settled(&w), SyncDirection::DoNothing);
}
