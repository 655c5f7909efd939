use std::collections::BTreeMap;

use game_save_sync::commands::sync::snapshot::{LocalEntry, LocalWalk};
use game_save_sync::commands::sync::{ResolvedSaveFiles, SyncError};
use game_save_sync::games::definition::{GameDefinition, GameDefinitionPath};
use game_save_sync::games::manifest::GameSaveFileMetadata;
use game_save_sync::games::paths::PathErrorKind;
use game_save_sync::games::GamePlatform;

const HOME: &str = "/home/alice";

/// A file system for the walks: files with their size and modification time,
/// and paths that hold something that is neither file nor directory.
struct Disk {
    files: BTreeMap<String, (u64, i128)>,
    others: Vec<String>,
}

fn disk(files: &[(&str, u64, i128)]) -> Disk {
    Disk {
        files: files.iter().map(|(p, s, m)| (p.to_string(), (*s, *m))).collect(),
        others: Vec::new(),
    }
}

fn look(disk: &Disk, path: &str) -> LocalEntry {
    if disk.others.iter().any(|p| p == path) {
        return LocalEntry::Other;
    }
    if let Some((size, modified)) = disk.files.get(path) {
        return LocalEntry::File {
            metadata: GameSaveFileMetadata { modified: *modified, size: *size },
        };
    }
    let prefix = if path == "/" { "/".to_string() } else { format!("{}/", path) };
    let mut children: Vec<String> = Vec::new();
    for known in disk.files.keys().chain(disk.others.iter()) {
        if let Some(rest) = known.strip_prefix(&prefix) {
            let name = rest.split('/').next().unwrap().to_string();
            if !children.contains(&name) {
                children.push(name);
            }
        }
    }
    if children.is_empty() {
        LocalEntry::Missing
    } else {
        LocalEntry::Directory { children }
    }
}

fn definition(paths: &[&str]) -> GameDefinition {
    GameDefinition {
        name: "Foo".to_string(),
        platform: GamePlatform::Linux,
        paths: paths.iter().map(|p| GameDefinitionPath { path: p.to_string() }).collect(),
        steam_app_id: None,
    }
}

fn walk(disk: &Disk, paths: &[&str], home: Option<&str>) -> Result<(ResolvedSaveFiles, Vec<String>), SyncError> {
    let mut walk = LocalWalk::new(&definition(paths), home);
    let mut looked: Vec<String> = Vec::new();
    let mut observed: Option<LocalEntry> = None;
    loop {
        match walk.advance(observed)? {
            Some(path) => {
                observed = Some(look(disk, &path));
                looked.push(path);
            }
            None => return Ok((walk.finish(), looked)),
        }
        assert!(looked.len() < 1000);
    }
}

fn walked(disk: &Disk, paths: &[&str]) -> ResolvedSaveFiles {
    match walk(disk, paths, Some(HOME)) {
        Ok((files, _)) => files,
        Err(_) => panic!("the walk failed"),
    }
}

#[test]
fn files_are_recorded_relative_to_their_declared_path() {
    let d = disk(&[
        ("/home/alice/Saves/slot1/save.dat", 100, 10),
        ("/home/alice/Saves/options.ini", 5, 20),
        ("/home/alice/Other/ignored", 1, 1),
    ]);
    let files = walked(&d, &["~/Saves"]);
    assert_eq!(files.len(), 2);
    let save = files.get("/home/alice/Saves/slot1/save.dat").expect("save.dat");
    assert_eq!(save.path, "~/Saves");
    assert_eq!(save.file, "slot1/save.dat");
    assert_eq!(save.metadata, GameSaveFileMetadata { modified: 10, size: 100 });
    let options = files.get("/home/alice/Saves/options.ini").expect("options.ini");
    assert_eq!(options.path, "~/Saves");
    assert_eq!(options.file, "options.ini");
    assert_eq!(options.metadata, GameSaveFileMetadata { modified: 20, size: 5 });
}

#[test]
fn a_declared_path_that_is_a_file_is_recorded_as_itself() {
    let d = disk(&[("/home/alice/game.sav", 7, 70)]);
    let files = walked(&d, &["~/game.sav"]);
    assert_eq!(files.len(), 1);
    let entry = files.get("/home/alice/game.sav").expect("game.sav");
    assert_eq!(entry.path, "~/game.sav");
    assert_eq!(entry.file, "");
}

#[test]
fn a_missing_declared_path_contributes_no_files() {
    let d = disk(&[("/home/alice/Saves/a", 1, 1)]);
    let files = walked(&d, &["~/Nowhere"]);
    assert_eq!(files.len(), 0);
    let both = walked(&d, &["~/Nowhere", "~/Saves"]);
    assert_eq!(both.len(), 1);
    assert!(both.contains_key("/home/alice/Saves/a"));
}

#[test]
fn a_game_without_declared_paths_has_no_files() {
    let d = disk(&[("/home/alice/Saves/a", 1, 1)]);
    let (files, looked) = walk(&d, &[], Some(HOME)).unwrap_or_else(|_| panic!("failed"));
    assert_eq!(files.len(), 0);
    assert!(looked.is_empty());
}

#[test]
fn overlapping_declared_paths_record_a_file_once() {
    let d = disk(&[
        ("/home/alice/Saves/slot1/save.dat", 100, 10),
        ("/home/alice/Saves/options.ini", 5, 20),
    ]);
    let files = walked(&d, &["~/Saves", "~/Saves/slot1"]);
    assert_eq!(files.len(), 2);
    let save = files.get("/home/alice/Saves/slot1/save.dat").expect("save.dat");
    assert_eq!(save.path, "~/Saves");
    assert_eq!(save.file, "slot1/save.dat");
    let reversed = walked(&d, &["~/Saves/slot1", "~/Saves"]);
    assert_eq!(reversed.len(), 2);
    let save = reversed.get("/home/alice/Saves/slot1/save.dat").expect("save.dat");
    assert_eq!(save.path, "~/Saves/slot1");
    assert_eq!(save.file, "save.dat");
}

#[test]
fn overlapping_declared_paths_are_recognised_however_they_are_spelled() {
    let d = disk(&[("/home/alice/Saves/slot1/save.dat", 100, 10)]);
    let files = walked(&d, &["~/Saves/", "~//Saves/./slot1"]);
    assert_eq!(files.len(), 1);
    assert!(files.contains_key("/home/alice/Saves/slot1/save.dat"));
}

#[test]
fn something_that_is_neither_file_nor_directory_is_unsupported() {
    let mut d = disk(&[("/home/alice/Saves/a", 1, 1)]);
    d.others.push("/home/alice/Saves/socket".to_string());
    match walk(&d, &["~/Saves"], Some(HOME)) {
        Err(SyncError::UnsupportedEntry { path }) => assert_eq!(path, "/home/alice/Saves/socket"),
        _ => panic!("the walk did not fail on the socket"),
    }
}

#[test]
fn a_declared_path_that_does_not_resolve_fails_the_walk() {
    let d = disk(&[("/home/alice/Saves/a", 1, 1)]);
    match walk(&d, &["~/Saves", "~"], Some(HOME)) {
        Err(SyncError::Path(e)) => {
            assert_eq!(e.kind, PathErrorKind::PathTooBroad);
            assert_eq!(e.path, "~");
        }
        _ => panic!("the walk did not fail"),
    }
    match walk(&d, &["saves"], Some(HOME)) {
        Err(SyncError::Path(e)) => assert_eq!(e.kind, PathErrorKind::InvalidPath),
        _ => panic!("the walk did not fail"),
    }
    match walk(&d, &["~/Saves"], None) {
        Err(SyncError::Path(e)) => assert_eq!(e.kind, PathErrorKind::HomeUnavailable),
        _ => panic!("the walk did not fail"),
    }
}

#[test]
fn the_walk_looks_at_each_path_once_and_deepest_last_pushed_first() {
    let d = disk(&[
        ("/data/saves/a/1", 1, 1),
        ("/data/saves/a/2", 1, 1),
        ("/data/saves/b", 1, 1),
    ]);
    let (files, looked) = walk(&d, &["/data/saves"], Some(HOME)).unwrap_or_else(|_| panic!("failed"));
    assert_eq!(files.len(), 3);
    assert_eq!(
        looked,
        vec![
            "/data/saves".to_string(),
            "/data/saves/b".to_string(),
            "/data/saves/a".to_string(),
            "/data/saves/a/2".to_string(),
            "/data/saves/a/1".to_string(),
        ]
    );
    assert_eq!(files.key(0), "/data/saves/b");
    assert_eq!(files.key(1), "/data/saves/a/2");
    assert_eq!(files.key(2), "/data/saves/a/1");
}

#[test]
fn a_deep_tree_is_walked_without_recursion() {
    let mut path = "/data/saves".to_string();
    for i in 0..300 {
        path.push_str(&format!("/d{}", i));
    }
    path.push_str("/save.dat");
    let d = disk(&[(path.as_str(), 3, 4)]);
    let mut walk = LocalWalk::new(&definition(&["/data/saves"]), Some(HOME));
    let mut observed: Option<LocalEntry> = None;
    let mut steps = 0;
    loop {
        match walk.advance(observed) {
            Ok(Some(p)) => observed = Some(look(&d, &p)),
            Ok(None) => break,
            Err(_) => panic!("failed"),
        }
        steps += 1;
    }
    assert_eq!(steps, 302);
    let files = walk.finish();
    assert_eq!(files.len(), 1);
    assert!(files.contains_key(&path));
}

#[test]
fn an_observation_nobody_asked_for_is_disregarded() {
    let d = disk(&[("/data/saves/a", 1, 1)]);
    let mut walk = LocalWalk::new(&definition(&["/data/saves"]), None);
    let first = walk
        .advance(Some(LocalEntry::File { metadata: GameSaveFileMetadata { modified: 1, size: 1 } }))
        .unwrap_or_else(|_| panic!("failed"));
    assert_eq!(first, Some("/data/saves".to_string()));
    let second = walk.advance(Some(look(&d, "/data/saves"))).unwrap_or_else(|_| panic!("failed"));
    assert_eq!(second, Some("/data/saves/a".to_string()));
    let third = walk.advance(None).unwrap_or_else(|_| panic!("failed"));
    assert_eq!(third, None);
    assert_eq!(walk.finish().len(), 0);
}
