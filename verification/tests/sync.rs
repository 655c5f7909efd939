use game_save_sync::commands::sync::conflict::{
    conflict_message, conflict_prompt, conflict_prompt_at, latest_modification,
};
use game_save_sync::commands::sync::{
    decide, get_manifest_files, load_state, next_game, report, save_files_equal, sync, sync_game,
    ConflictReason, GameOutcome, ManifestState, ResolvedSaveFile, ResolvedSaveFiles, SyncArgs,
    SyncDecision, SyncDirection, SyncStage,
};
use game_save_sync::games::definition::{definition_path, GameDefinition, GameDefinitionPath};
use game_save_sync::games::manifest::{
    repository_manifest_path, synced_manifest_path, GameSaveFileMetadata, GameSaveManifest,
    SaveFileTable, Timestamp,
};
use game_save_sync::games::paths::PathErrorKind;
use game_save_sync::games::GamePlatform;
use game_save_sync::utils::string_map::StringMap;
use game_save_sync::utils::time::display_offset;

const HOME: &str = "/home/alice";

fn meta(modified: i128, size: u64) -> GameSaveFileMetadata {
    GameSaveFileMetadata { modified, size }
}

fn file_set(files: &[(&str, &str, &str, i128, u64)]) -> ResolvedSaveFiles {
    let mut set: ResolvedSaveFiles = StringMap::new();
    for (real, declared, file, modified, size) in files {
        set.insert(
            real.to_string(),
            ResolvedSaveFile {
                path: declared.to_string(),
                file: file.to_string(),
                metadata: meta(*modified, *size),
            },
        );
    }
    set
}

fn definition(name: &str, paths: &[&str]) -> GameDefinition {
    GameDefinition {
        name: name.to_string(),
        platform: GamePlatform::Linux,
        paths: paths.iter().map(|p| GameDefinitionPath { path: p.to_string() }).collect(),
        steam_app_id: None,
    }
}

fn manifest(id: &str, paths: &[&str], files: &[(&str, &str, i128, u64)]) -> GameSaveManifest {
    let mut tables: StringMap<SaveFileTable> = StringMap::new();
    for (declared, file, modified, size) in files {
        let mut table = match tables.get(declared) {
            Some(t) => t.duplicate(),
            None => StringMap::new(),
        };
        table.insert(file.to_string(), meta(*modified, *size));
        tables.insert(declared.to_string(), table);
    }
    GameSaveManifest {
        id: id.to_string(),
        definition: definition("Foo", paths),
        timestamp: Timestamp { unix_nanos: 1_700_000_000_000_000_000, offset_seconds: 3600 },
        files: tables,
    }
}

#[test]
fn a_file_set_equals_itself() {
    let empty = file_set(&[]);
    assert!(save_files_equal(&empty, &empty));
    let a = file_set(&[("/s/a", "/s", "a", 10, 1), ("/s/b", "/s", "b", 20, 2)]);
    assert!(save_files_equal(&a, &a));
}

#[test]
fn file_set_equality_is_symmetric() {
    let a = file_set(&[("/s/a", "/s", "a", 10, 1), ("/s/b", "/s", "b", 20, 2)]);
    let same = file_set(&[("/s/b", "/s", "b", 20, 2), ("/s/a", "/s", "a", 10, 1)]);
    let fewer = file_set(&[("/s/a", "/s", "a", 10, 1)]);
    let other_time = file_set(&[("/s/a", "/s", "a", 11, 1), ("/s/b", "/s", "b", 20, 2)]);
    let other_size = file_set(&[("/s/a", "/s", "a", 10, 1), ("/s/b", "/s", "b", 20, 3)]);
    let other_key = file_set(&[("/s/a", "/s", "a", 10, 1), ("/s/c", "/s", "c", 20, 2)]);
    for other in [&same, &fewer, &other_time, &other_size, &other_key] {
        assert_eq!(save_files_equal(&a, other), save_files_equal(other, &a));
    }
    assert!(save_files_equal(&a, &same));
    assert!(!save_files_equal(&a, &fewer));
    assert!(!save_files_equal(&fewer, &a));
    assert!(!save_files_equal(&a, &other_time));
    assert!(!save_files_equal(&a, &other_size));
    assert!(!save_files_equal(&a, &other_key));
}

#[test]
fn file_set_equality_looks_at_paths_and_metadata_only() {
    let a = file_set(&[("/s/a", "/s", "a", 10, 1)]);
    let other_origin = file_set(&[("/s/a", "/", "s/a", 10, 1)]);
    assert!(save_files_equal(&a, &other_origin));
}

#[test]
fn without_repository_manifest_the_decision_is_publish() {
    let local = file_set(&[("/s/a", "/s", "a", 10, 1)]);
    let synced = file_set(&[("/s/a", "/s", "a", 10, 1)]);
    assert_eq!(decide(&local, None, None), SyncDecision::Transfer(SyncDirection::ToRepository));
    assert_eq!(
        decide(&local, None, Some(&synced)),
        SyncDecision::Transfer(SyncDirection::ToRepository)
    );
}

#[test]
fn without_synced_manifest_the_decision_is_a_conflict() {
    let local = file_set(&[("/s/a", "/s", "a", 10, 1)]);
    let repository = file_set(&[("/s/a", "/s", "a", 10, 1)]);
    assert_eq!(
        decide(&local, Some(&repository), None),
        SyncDecision::Conflict(ConflictReason::NeverSynced)
    );
}

#[test]
fn the_decision_follows_the_table_for_all_four_combinations() {
    let old = file_set(&[("/s/a", "/s", "a", 10, 1)]);
    let new_local = file_set(&[("/s/a", "/s", "a", 10, 2)]);
    let new_repository = file_set(&[("/s/a", "/s", "a", 30, 1)]);
    assert_eq!(
        decide(&old, Some(&old), Some(&old)),
        SyncDecision::Transfer(SyncDirection::DoNothing)
    );
    assert_eq!(
        decide(&new_local, Some(&old), Some(&old)),
        SyncDecision::Transfer(SyncDirection::ToRepository)
    );
    assert_eq!(
        decide(&old, Some(&new_repository), Some(&old)),
        SyncDecision::Transfer(SyncDirection::FromRepository)
    );
    assert_eq!(
        decide(&new_local, Some(&new_repository), Some(&old)),
        SyncDecision::Conflict(ConflictReason::BothChanged)
    );
}

#[test]
fn repository_change_is_judged_against_the_synced_state_not_the_local_one() {
    let synced = file_set(&[("/s/a", "/s", "a", 10, 1)]);
    let both_moved_alike = file_set(&[("/s/a", "/s", "a", 20, 5)]);
    assert_eq!(
        decide(&both_moved_alike, Some(&both_moved_alike), Some(&synced)),
        SyncDecision::Conflict(ConflictReason::BothChanged)
    );
}

#[test]
fn manifest_files_resolve_to_local_paths() {
    let m = manifest(
        "v1",
        &["~/Saves", "/data/foo"],
        &[("~/Saves", "slot1/save.dat", 10, 100), ("~/Saves", "options.ini", 20, 5), ("/data/foo", "x", 30, 1)],
    );
    let files = get_manifest_files(&m, Some(HOME)).unwrap_or_else(|e| panic!("{:?}", e.kind));
    assert_eq!(files.len(), 3);
    let save = files.get("/home/alice/Saves/slot1/save.dat").expect("save.dat");
    assert_eq!(save.path, "~/Saves");
    assert_eq!(save.file, "slot1/save.dat");
    assert_eq!(save.metadata, meta(10, 100));
    let options = files.get("/home/alice/Saves/options.ini").expect("options.ini");
    assert_eq!(options.metadata, meta(20, 5));
    let x = files.get("/data/foo/x").expect("x");
    assert_eq!(x.path, "/data/foo");
    assert_eq!(x.file, "x");
}

#[test]
fn manifest_files_are_keyed_in_normal_form() {
    let m = manifest(
        "v1",
        &["~/Saves/"],
        &[("~/Saves/", "a//b", 10, 1), ("~/Saves/", "", 20, 2), ("~/Saves/", "./c", 30, 3)],
    );
    let files = get_manifest_files(&m, Some(HOME)).unwrap_or_else(|e| panic!("{:?}", e.kind));
    assert!(files.contains_key("/home/alice/Saves/a/b"));
    assert!(files.contains_key("/home/alice/Saves"));
    assert!(files.contains_key("/home/alice/Saves/c"));
    assert_eq!(files.len(), 3);
}

#[test]
fn a_later_manifest_file_replaces_an_earlier_one_at_the_same_local_path() {
    let m = manifest(
        "v1",
        &["~/Saves", "~/Saves/slot1"],
        &[("~/Saves", "slot1/save.dat", 10, 100), ("~/Saves/slot1", "save.dat", 20, 200)],
    );
    let files = get_manifest_files(&m, Some(HOME)).unwrap_or_else(|e| panic!("{:?}", e.kind));
    assert_eq!(files.len(), 1);
    let save = files.get("/home/alice/Saves/slot1/save.dat").expect("save.dat");
    assert_eq!(save.path, "~/Saves/slot1");
    assert_eq!(save.file, "save.dat");
    assert_eq!(save.metadata, meta(20, 200));
}

#[test]
fn manifest_files_fail_with_the_first_path_that_does_not_resolve() {
    let m = manifest(
        "v1",
        &[],
        &[("/ok", "a", 1, 1), ("relative", "b", 1, 1), ("~", "c", 1, 1)],
    );
    match get_manifest_files(&m, Some(HOME)) {
        Ok(_) => panic!("resolved"),
        Err(e) => {
            assert_eq!(e.kind, PathErrorKind::InvalidPath);
            assert_eq!(e.path, "relative");
        }
    }
    let broad = manifest("v1", &[], &[("/ok", "a", 1, 1), ("~", "c", 1, 1)]);
    match get_manifest_files(&broad, Some(HOME)) {
        Ok(_) => panic!("resolved"),
        Err(e) => {
            assert_eq!(e.kind, PathErrorKind::PathTooBroad);
            assert_eq!(e.path, "~");
        }
    }
    match get_manifest_files(&broad, None) {
        Ok(_) => panic!("resolved"),
        Err(e) => {
            assert_eq!(e.kind, PathErrorKind::HomeUnavailable);
            assert_eq!(e.path, "~");
        }
    }
}

#[test]
fn an_empty_manifest_has_no_files() {
    let m = manifest("v1", &["~/Saves"], &[]);
    let files = get_manifest_files(&m, Some(HOME)).unwrap_or_else(|e| panic!("{:?}", e.kind));
    assert_eq!(files.len(), 0);
}

#[test]
fn load_state_keeps_the_manifest_with_its_files() {
    let m = manifest("v7", &["~/Saves"], &[("~/Saves", "a", 10, 1)]);
    let state = load_state(m, Some(HOME)).unwrap_or_else(|e| panic!("{:?}", e.kind));
    assert_eq!(state.manifest.id, "v7");
    assert!(state.files.contains_key("/home/alice/Saves/a"));
    let bad = manifest("v7", &[], &[("nowhere", "a", 10, 1)]);
    assert!(load_state(bad, Some(HOME)).is_err());
}

#[test]
fn sync_takes_the_one_game_asked_for() {
    let all = vec!["Foo".to_string(), "Bar".to_string()];
    let args = SyncArgs { game: Some("Baz".to_string()), dry_run: false };
    assert_eq!(sync(&args, &all), vec!["Baz".to_string()]);
}

#[test]
fn sync_takes_every_defined_game_in_order() {
    let all = vec!["Foo".to_string(), "Bar".to_string(), "Qux".to_string()];
    let args = SyncArgs { game: None, dry_run: true };
    assert_eq!(sync(&args, &all), all);
    assert_eq!(sync(&args, &Vec::new()), Vec::<String>::new());
}

#[test]
fn latest_modification_is_the_maximum() {
    assert_eq!(latest_modification(&file_set(&[])), None);
    let files = file_set(&[
        ("/s/a", "/s", "a", 10, 1),
        ("/s/b", "/s", "b", 30, 1),
        ("/s/c", "/s", "c", 20, 1),
    ]);
    assert_eq!(latest_modification(&files), Some(30));
    let negative = file_set(&[("/s/a", "/s", "a", -10, 1), ("/s/b", "/s", "b", -30, 1)]);
    assert_eq!(latest_modification(&negative), Some(-10));
}

#[test]
fn the_shown_offset_falls_back_to_the_stored_one() {
    assert_eq!(display_offset(Some(7200), 3600), 7200);
    assert_eq!(display_offset(Some(0), 3600), 0);
    assert_eq!(display_offset(None, 3600), 3600);
    assert_eq!(display_offset(None, -18000), -18000);
}

#[test]
fn the_prompt_offers_exactly_three_answers() {
    let prompt = conflict_prompt_at(
        "Foo has changed",
        Some(0),
        Timestamp { unix_nanos: 86_400_000_000_000, offset_seconds: 0 },
        3600,
    );
    assert_eq!(prompt.message, "Foo has changed");
    assert_eq!(prompt.choices.len(), 3);
    assert_eq!(prompt.choices[0].sync_direction, SyncDirection::DoNothing);
    assert_eq!(prompt.choices[0].label, "Do nothing");
    assert_eq!(prompt.choices[1].sync_direction, SyncDirection::ToRepository);
    assert_eq!(
        prompt.choices[1].label,
        "Keep local device save (modified 1970-01-01 1:00:00.0 +01:00:00)"
    );
    assert_eq!(prompt.choices[2].sync_direction, SyncDirection::FromRepository);
    assert_eq!(
        prompt.choices[2].label,
        "Keep repository save (synced 1970-01-02 1:00:00.0 +01:00:00)"
    );
    assert_eq!(prompt.direction(0), Some(SyncDirection::DoNothing));
    assert_eq!(prompt.direction(1), Some(SyncDirection::ToRepository));
    assert_eq!(prompt.direction(2), Some(SyncDirection::FromRepository));
    assert_eq!(prompt.direction(3), None);
}

#[test]
fn the_prompt_shows_times_as_the_time_crate_renders_them() {
    let nanos: i128 = 1_700_000_000_123_456_789;
    let offset = -18000;
    let expected = time::OffsetDateTime::from_unix_timestamp_nanos(nanos)
        .unwrap()
        .to_offset(time::UtcOffset::from_whole_seconds(offset).unwrap())
        .to_string();
    let prompt = conflict_prompt_at(
        "m",
        Some(nanos),
        Timestamp { unix_nanos: nanos, offset_seconds: 0 },
        offset,
    );
    assert_eq!(prompt.choices[1].label, format!("Keep local device save (modified {})", expected));
    assert_eq!(prompt.choices[2].label, format!("Keep repository save (synced {})", expected));
    assert!(expected.starts_with("2023-11-14 17:13:20.123456789"));
}

#[test]
fn the_prompt_leaves_out_times_it_cannot_show() {
    let prompt = conflict_prompt_at(
        "m",
        None,
        Timestamp { unix_nanos: i128::MAX, offset_seconds: 0 },
        0,
    );
    assert_eq!(prompt.choices[1].label, "Keep local device save");
    assert_eq!(prompt.choices[2].label, "Keep repository save");
    let bad_offset = conflict_prompt_at(
        "m",
        Some(0),
        Timestamp { unix_nanos: 0, offset_seconds: 0 },
        i32::MAX,
    );
    assert_eq!(bad_offset.choices[1].label, "Keep local device save");
    assert_eq!(bad_offset.choices[2].label, "Keep repository save");
}

#[test]
fn the_prompt_at_the_local_offset_has_the_same_answers() {
    let prompt = conflict_prompt("m", None, Timestamp { unix_nanos: 0, offset_seconds: 0 });
    assert_eq!(prompt.message, "m");
    assert_eq!(prompt.choices.len(), 3);
    assert_eq!(prompt.choices[0].label, "Do nothing");
    assert_eq!(prompt.choices[1].label, "Keep local device save");
    assert!(prompt.choices[2].label.starts_with("Keep repository save (synced "));
    assert_eq!(prompt.direction(2), Some(SyncDirection::FromRepository));
}

#[test]
fn conflict_messages_say_what_happened() {
    assert_eq!(
        conflict_message("Foo", ConflictReason::NeverSynced, None),
        "Foo has not been synced to this device"
    );
    assert_eq!(
        conflict_message(
            "Foo",
            ConflictReason::BothChanged,
            Some(Timestamp { unix_nanos: 0, offset_seconds: 3600 })
        ),
        "Foo has changed here and in the repository (last synced at 1970-01-01 1:00:00.0 +01:00:00)"
    );
    assert_eq!(
        conflict_message("Foo", ConflictReason::BothChanged, None),
        "Foo has changed here and in the repository"
    );
}

#[test]
fn sync_game_settles_what_needs_no_answer() {
    let local = file_set(&[("/home/alice/Saves/a", "~/Saves", "a", 10, 1)]);
    match sync_game("Foo", &local, None, None) {
        SyncStage::Settled { direction } => assert_eq!(direction, SyncDirection::ToRepository),
        SyncStage::Ask { .. } => panic!("asked"),
    }
    let state = |modified: i128| -> ManifestState {
        load_state(manifest("v1", &["~/Saves"], &[("~/Saves", "a", modified, 1)]), Some(HOME))
            .unwrap_or_else(|e| panic!("{:?}", e.kind))
    };
    let same = state(10);
    let synced = state(10);
    match sync_game("Foo", &local, Some(&same), Some(&synced)) {
        SyncStage::Settled { direction } => assert_eq!(direction, SyncDirection::DoNothing),
        SyncStage::Ask { .. } => panic!("asked"),
    }
    let newer = state(99);
    match sync_game("Foo", &local, Some(&newer), Some(&synced)) {
        SyncStage::Settled { direction } => assert_eq!(direction, SyncDirection::FromRepository),
        SyncStage::Ask { .. } => panic!("asked"),
    }
    let older_synced = state(5);
    match sync_game("Foo", &local, Some(&older_synced), Some(&older_synced)) {
        SyncStage::Settled { direction } => assert_eq!(direction, SyncDirection::ToRepository),
        SyncStage::Ask { .. } => panic!("asked"),
    }
}

#[test]
fn sync_game_asks_when_never_synced_here() {
    let local = file_set(&[("/home/alice/Saves/a", "~/Saves", "a", 10, 1)]);
    let repository =
        load_state(manifest("v1", &["~/Saves"], &[("~/Saves", "a", 10, 1)]), Some(HOME)).unwrap();
    match sync_game("Foo", &local, Some(&repository), None) {
        SyncStage::Settled { .. } => panic!("settled"),
        SyncStage::Ask { prompt } => {
            assert_eq!(prompt.message, "Foo has not been synced to this device");
            assert_eq!(prompt.choices.len(), 3);
            assert!(prompt.choices[1].label.starts_with("Keep local device save (modified "));
            assert!(prompt.choices[2].label.starts_with("Keep repository save (synced "));
        }
    }
}

#[test]
fn sync_game_asks_when_both_sides_changed() {
    let local = file_set(&[("/home/alice/Saves/a", "~/Saves", "a", 10, 2)]);
    let state = |modified: i128| -> ManifestState {
        load_state(manifest("v1", &["~/Saves"], &[("~/Saves", "a", modified, 1)]), Some(HOME))
            .unwrap_or_else(|e| panic!("{:?}", e.kind))
    };
    let repository = state(30);
    let synced = state(10);
    match sync_game("Foo", &local, Some(&repository), Some(&synced)) {
        SyncStage::Settled { .. } => panic!("settled"),
        SyncStage::Ask { prompt } => {
            assert!(prompt
                .message
                .starts_with("Foo has changed here and in the repository (last synced at 2023-11-14 "));
            assert_eq!(prompt.direction(0), Some(SyncDirection::DoNothing));
        }
    }
}

#[test]
fn repository_layout_of_a_game() {
    assert_eq!(definition_path("Foo"), "Foo/definition.toml");
    assert_eq!(repository_manifest_path("Foo"), "Foo/manifest.toml");
    assert_eq!(definition_path("Foo/"), "Foo/definition.toml");
    assert_eq!(definition_path(""), "definition.toml");
}

#[test]
fn cache_layout_of_a_game() {
    assert_eq!(
        synced_manifest_path("/home/alice/.local/share/gamesavesync", "Foo"),
        "/home/alice/.local/share/gamesavesync/Foo/manifest.toml"
    );
    assert_eq!(synced_manifest_path("/cache/", "Foo"), "/cache/Foo/manifest.toml");
}

#[test]
fn definitions_are_copied_whole() {
    let d = GameDefinition {
        name: "Foo".to_string(),
        platform: GamePlatform::Linux,
        paths: vec![
            GameDefinitionPath { path: "~/Saves".to_string() },
            GameDefinitionPath { path: "/data".to_string() },
        ],
        steam_app_id: Some(42),
    };
    let copy = d.clone();
    assert_eq!(copy.name, "Foo");
    assert_eq!(copy.platform, GamePlatform::Linux);
    assert_eq!(copy.paths.len(), 2);
    assert_eq!(copy.paths[0].path, "~/Saves");
    assert_eq!(copy.paths[1].path, "/data");
    assert_eq!(copy.steam_app_id, Some(42));
    assert_eq!(GamePlatform::Linux.name(), "Linux");
}

#[test]
fn the_next_game_is_the_one_after_those_that_ended_however_they_ended() {
    let games = vec!["Foo".to_string(), "Bar".to_string(), "Qux".to_string()];
    let mut outcomes: Vec<GameOutcome> = Vec::new();
    assert_eq!(next_game(&games, &outcomes), Some(&"Foo".to_string()));
    outcomes.push(GameOutcome { game: "Foo".to_string(), failure: Some("path ~ is too broad".to_string()) });
    assert_eq!(next_game(&games, &outcomes), Some(&"Bar".to_string()));
    outcomes.push(GameOutcome { game: "Bar".to_string(), failure: None });
    assert_eq!(next_game(&games, &outcomes), Some(&"Qux".to_string()));
    outcomes.push(GameOutcome { game: "Qux".to_string(), failure: Some("no".to_string()) });
    assert_eq!(next_game(&games, &outcomes), None);
    assert_eq!(next_game(&Vec::new(), &Vec::new()), None);
}

#[test]
fn a_run_fails_exactly_when_a_game_failed_and_reports_each_failure() {
    assert!(report(&Vec::new()).is_ok());
    let fine = vec![
        GameOutcome { game: "Foo".to_string(), failure: None },
        GameOutcome { game: "Bar".to_string(), failure: None },
    ];
    assert!(report(&fine).is_ok());
    let mixed = vec![
        GameOutcome { game: "Foo".to_string(), failure: Some("path ~ is too broad".to_string()) },
        GameOutcome { game: "Bar".to_string(), failure: None },
        GameOutcome { game: "Qux".to_string(), failure: Some("no".to_string()) },
    ];
    match report(&mixed) {
        Ok(()) => panic!("the run succeeded"),
        Err(failed) => {
            assert_eq!(failed.len(), 2);
            assert_eq!(failed[0].game, "Foo");
            assert_eq!(failed[0].failure, Some("path ~ is too broad".to_string()));
            assert_eq!(failed[1].game, "Qux");
            assert_eq!(failed[1].failure, Some("no".to_string()));
        }
    }
}
