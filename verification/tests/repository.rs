use game_save_sync::commands::set_repository::{
    notice, repository_path, set_repository, verify_repository, SetRepositoryArgs,
};
use game_save_sync::repository::any_repository::{AnyRepository, AnyRepositoryConfig};
use game_save_sync::repository::local_repository::LocalRepositoryConfig;
use game_save_sync::repository::{
    get_repository, open_repository, prepare_repository, root_marker, RepositoryError,
    RepositoryProbe,
};
use game_save_sync::utils::config::{
    config_file, config_path, config_path_from, Config, RepositoryConfig,
};
use game_save_sync::utils::paths::{config_dir, data_dir, directory_from, DirectoryError};

fn probe(exists: bool, is_dir: bool, has_marker: bool, has_entries: bool) -> RepositoryProbe {
    RepositoryProbe { exists, is_dir, has_marker, has_entries }
}

fn local(path: &str) -> AnyRepositoryConfig {
    AnyRepositoryConfig::Local(LocalRepositoryConfig { path: path.to_string() })
}

fn some(path: &str) -> Option<AnyRepositoryConfig> {
    Some(local(path))
}

#[test]
fn the_root_marker_has_a_fixed_name() {
    assert_eq!(root_marker(), "GameSaveSync.toml");
}

#[test]
fn a_local_repository_opens_on_an_absolute_existing_directory() {
    let config = LocalRepositoryConfig { path: "/srv/saves".to_string() };
    let opened = game_save_sync::repository::local_repository::open_repository(
        &config,
        probe(true, true, false, false),
    );
    match opened {
        Ok(repository) => {
            assert_eq!(repository.root_path(), "/srv/saves");
            assert_eq!(repository.locate("Foo/manifest.toml"), "/srv/saves/Foo/manifest.toml");
            assert_eq!(repository.locate(""), "/srv/saves");
            assert_eq!(repository.locate("a//b/"), "/srv/saves/a/b");
        }
        Err(e) => panic!("{:?}", e),
    }
}

#[test]
fn opening_fails_for_each_reason_in_order() {
    let config = LocalRepositoryConfig { path: "srv/saves".to_string() };
    let open = game_save_sync::repository::local_repository::open_repository;
    assert!(matches!(
        open(&config, probe(true, true, true, true)),
        Err(RepositoryError::NotAbsolute { path }) if path == "srv/saves"
    ));
    let config = LocalRepositoryConfig { path: "/srv/saves".to_string() };
    assert!(matches!(
        open(&config, probe(false, false, false, false)),
        Err(RepositoryError::DoesNotExist { path }) if path == "/srv/saves"
    ));
    assert!(matches!(
        open(&config, probe(false, true, true, true)),
        Err(RepositoryError::DoesNotExist { .. })
    ));
    assert!(matches!(
        open(&config, probe(true, false, false, false)),
        Err(RepositoryError::NotADirectory { path }) if path == "/srv/saves"
    ));
}

#[test]
fn any_repository_opens_as_its_kind_does() {
    match open_repository(&local("/srv/saves"), probe(true, true, true, true)) {
        Ok(AnyRepository::Local(repository)) => assert_eq!(repository.root_path(), "/srv/saves"),
        Err(e) => panic!("{:?}", e),
    }
    assert!(matches!(
        open_repository(&local("saves"), probe(true, true, true, true)),
        Err(RepositoryError::NotAbsolute { .. })
    ));
    match open_repository(&local("/srv/saves"), probe(true, true, true, true)) {
        Ok(repository) => assert_eq!(repository.locate("Foo/x"), "/srv/saves/Foo/x"),
        Err(e) => panic!("{:?}", e),
    }
    assert_eq!(local("/srv/saves").path_text(), "/srv/saves");
}

#[test]
fn an_existing_repository_has_to_be_set_and_initialized() {
    assert!(matches!(get_repository(&None, probe(true, true, true, true)), Err(RepositoryError::NotSet)));
    assert!(matches!(
        get_repository(&some("/srv/saves"), probe(true, true, false, true)),
        Err(RepositoryError::NotInitialized { path }) if path == "/srv/saves"
    ));
    assert!(matches!(
        get_repository(&some("/srv/saves"), probe(true, true, false, false)),
        Err(RepositoryError::NotInitialized { .. })
    ));
    assert!(matches!(
        get_repository(&some("/srv/saves"), probe(false, false, false, false)),
        Err(RepositoryError::DoesNotExist { .. })
    ));
    assert!(matches!(
        get_repository(&some("/srv/saves"), probe(true, false, false, false)),
        Err(RepositoryError::NotADirectory { .. })
    ));
    assert!(matches!(
        get_repository(&some("srv"), probe(true, true, true, false)),
        Err(RepositoryError::NotAbsolute { .. })
    ));
    assert!(get_repository(&some("/srv/saves"), probe(true, true, true, true)).is_ok());
    assert!(get_repository(&some("/srv/saves"), probe(true, true, true, false)).is_ok());
}

#[test]
fn preparing_creates_the_marker_only_in_an_empty_directory() {
    assert!(matches!(prepare_repository(&None, probe(true, true, false, false)), Err(RepositoryError::NotSet)));
    assert!(matches!(prepare_repository(&some("/srv/saves"), probe(true, true, false, false)), Ok(true)));
    assert!(matches!(prepare_repository(&some("/srv/saves"), probe(true, true, true, true)), Ok(false)));
    assert!(matches!(prepare_repository(&some("/srv/saves"), probe(true, true, true, false)), Ok(false)));
    assert!(matches!(
        prepare_repository(&some("/srv/saves"), probe(true, true, false, true)),
        Err(RepositoryError::NotEmpty { path }) if path == "/srv/saves"
    ));
    assert!(matches!(
        prepare_repository(&some("/srv/saves"), probe(false, false, false, false)),
        Err(RepositoryError::DoesNotExist { .. })
    ));
    assert!(matches!(
        prepare_repository(&some("/srv/saves"), probe(true, false, false, false)),
        Err(RepositoryError::NotADirectory { .. })
    ));
    assert!(matches!(
        prepare_repository(&some("srv/saves"), probe(true, true, false, false)),
        Err(RepositoryError::NotAbsolute { .. })
    ));
}

#[test]
fn the_repository_path_is_taken_from_the_working_directory() {
    let relative = SetRepositoryArgs { path: "saves".to_string() };
    assert_eq!(repository_path(&relative, "/home/alice"), "/home/alice/saves");
    let absolute = SetRepositoryArgs { path: "/srv/saves".to_string() };
    assert_eq!(repository_path(&absolute, "/home/alice"), "/srv/saves");
}

#[test]
fn setting_a_repository_tells_the_operator_and_builds_the_configuration() {
    let fresh = Config::default();
    assert!(fresh.repository.is_none());
    assert_eq!(notice(&fresh, "/srv/saves"), "Setting repository to /srv/saves");
    let setup = set_repository("/srv/saves", probe(true, true, false, false))
        .unwrap_or_else(|e| panic!("{:?}", e));
    assert!(setup.create_marker);
    assert_eq!(setup.config.repository.as_ref().unwrap().path, "/srv/saves");
    let before = Config { repository: Some(RepositoryConfig { path: "/old".to_string() }) };
    assert_eq!(notice(&before, "/srv/saves"), "Changing repository from /old to /srv/saves");
    let setup = set_repository("/srv/saves", probe(true, true, true, true))
        .unwrap_or_else(|e| panic!("{:?}", e));
    assert!(!setup.create_marker);
    assert_eq!(setup.config.repository.as_ref().unwrap().path, "/srv/saves");
}

#[test]
fn setting_a_repository_fails_for_each_reason_in_order() {
    assert!(matches!(
        set_repository("saves", probe(true, true, true, true)),
        Err(RepositoryError::NotAbsolute { path }) if path == "saves"
    ));
    assert!(matches!(
        set_repository("/srv/saves", probe(false, true, true, true)),
        Err(RepositoryError::DoesNotExist { path }) if path == "/srv/saves"
    ));
    assert!(matches!(
        set_repository("/srv/saves", probe(true, false, true, true)),
        Err(RepositoryError::NotADirectory { path }) if path == "/srv/saves"
    ));
    assert!(matches!(
        set_repository("/srv/saves", probe(true, true, false, true)),
        Err(RepositoryError::PathNotEmpty { path }) if path == "/srv/saves"
    ));
}

#[test]
fn a_configured_repository_is_verified() {
    let ok = probe(true, true, true, true);
    assert!(matches!(verify_repository(&None, ok), Err(RepositoryError::NotSet)));
    let config = Some(RepositoryConfig { path: "/srv/saves".to_string() });
    assert!(verify_repository(&config, ok).is_ok());
    assert!(matches!(
        verify_repository(&config, probe(false, false, false, false)),
        Err(RepositoryError::DoesNotExist { .. })
    ));
    assert!(matches!(
        verify_repository(&config, probe(true, false, false, false)),
        Err(RepositoryError::NotADirectory { .. })
    ));
    assert!(matches!(
        verify_repository(&config, probe(true, true, false, false)),
        Err(RepositoryError::NotARepository { path }) if path == "/srv/saves"
    ));
    let relative = Some(RepositoryConfig { path: "saves".to_string() });
    assert!(matches!(verify_repository(&relative, ok), Err(RepositoryError::NotAbsolute { .. })));
}

#[test]
fn the_configuration_file_lies_in_the_configuration_directory() {
    assert_eq!(config_file("/home/alice/.config/gamesavesync"), "/home/alice/.config/gamesavesync/config.toml");
    assert_eq!(config_file("/etc/"), "/etc/config.toml");
}

#[test]
fn a_directory_is_what_the_system_gave() {
    assert_eq!(directory_from(None), Err(DirectoryError::NoProjectDirectories));
    assert_eq!(directory_from(Some(None)), Err(DirectoryError::NotText));
    assert_eq!(directory_from(Some(Some("/x".to_string()))), Ok("/x".to_string()));
}

#[test]
fn the_directories_of_the_application_are_the_system_s() {
    let expected = directories::ProjectDirs::from("org", "GameSaveSync", "GameSaveSync");
    match (&expected, config_dir()) {
        (Some(dirs), Ok(path)) => assert_eq!(path, dirs.config_local_dir().to_str().unwrap()),
        (None, Err(e)) => assert_eq!(e, DirectoryError::NoProjectDirectories),
        _ => panic!("the configuration directory differs"),
    }
    match (&expected, data_dir()) {
        (Some(dirs), Ok(path)) => assert_eq!(path, dirs.data_local_dir().to_str().unwrap()),
        (None, Err(e)) => assert_eq!(e, DirectoryError::NoProjectDirectories),
        _ => panic!("the data directory differs"),
    }
    match (config_dir(), config_path()) {
        (Ok(directory), Ok(path)) => assert_eq!(path, config_file(&directory)),
        (Err(a), Err(b)) => assert_eq!(a, b),
        _ => panic!("the configuration path differs"),
    }
}

#[test]
fn repository_failures_say_what_is_wrong() {
    assert_eq!(RepositoryError::NotSet.message(), "Repository is not set");
    assert_eq!(
        RepositoryError::NotAbsolute { path: "saves".to_string() }.message(),
        "Path saves is not absolute"
    );
    assert_eq!(
        RepositoryError::DoesNotExist { path: "/srv/saves".to_string() }.message(),
        "Path /srv/saves does not exist"
    );
    assert_eq!(
        RepositoryError::NotADirectory { path: "/srv/saves".to_string() }.message(),
        "Path /srv/saves is not a directory"
    );
    assert_eq!(
        RepositoryError::NotInitialized { path: "/srv/saves".to_string() }.message(),
        "Repository /srv/saves has not been correctly initialized"
    );
    assert_eq!(
        RepositoryError::NotEmpty { path: "/srv/saves".to_string() }.message(),
        "Repository /srv/saves should be empty"
    );
    assert_eq!(
        RepositoryError::NotARepository { path: "/srv/saves".to_string() }.message(),
        "Path /srv/saves has not been initialized as a repository"
    );
    assert_eq!(
        RepositoryError::PathNotEmpty { path: "/srv/saves".to_string() }.message(),
        "Path /srv/saves is not empty"
    );
    assert_eq!(DirectoryError::NoProjectDirectories.message(), "did not get project directories");
    assert_eq!(DirectoryError::NotText.message(), "the project directory is not valid text");
}

#[test]
fn the_configuration_path_follows_the_search_for_the_directory() {
    assert_eq!(
        config_path_from(Ok("/home/alice/.config/gamesavesync".to_string())),
        Ok("/home/alice/.config/gamesavesync/config.toml".to_string())
    );
    assert_eq!(
        config_path_from(Err(DirectoryError::NoProjectDirectories)),
        Err(DirectoryError::NoProjectDirectories)
    );
    assert_eq!(config_path_from(Err(DirectoryError::NotText)), Err(DirectoryError::NotText));
}
