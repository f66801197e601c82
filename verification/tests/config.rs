use sov_core::config::{SovConfig, SovConfigToml};
use sov_core::error::SovError;
use sov_core::path::NotePath;
use sov_core::time::Timestamp;

fn toml(notes_dir: &str) -> SovConfigToml {
    SovConfigToml {
        notes_dir: notes_dir.to_string(),
        daily_notes_dir: "daily".to_string(),
        scripts_dir: "/opt/scripts".to_string(),
        ignore_dirs: vec!["private".to_string(), "/elsewhere".to_string(), "a/b".to_string()],
    }
}

#[test]
fn default_configuration_file_is_empty() {
    let t = SovConfigToml::default();
    assert_eq!(t.notes_dir, "");
    assert_eq!(t.daily_notes_dir, "");
    assert_eq!(t.scripts_dir, "");
    assert_eq!(t.ignore_dirs, Vec::<String>::new());
}

#[test]
fn names_of_the_configuration_files() {
    assert_eq!(SovConfig::SOV_DIR, "sov");
    assert_eq!(SovConfig::LAST_UPDATE_FILE, "last_update");
    assert_eq!(SovConfig::MIN_DATE, "1900-01-01T00:00:00+00:00");
    assert_eq!(SovConfig::DB_FILE, "sov.db3");
    assert_eq!(SovConfig::TOML_FILE, "sov.toml");
}

#[test]
fn configuration_lives_in_the_users_configuration_directory() {
    assert_eq!(SovConfig::locate(Some("/home/u/.config")), Ok("/home/u/.config/sov".to_string()));
    assert_eq!(SovConfig::locate(Some("/home/u/.config/")), Ok("/home/u/.config/sov".to_string()));
    assert_eq!(SovConfig::locate(None), Err(SovError::NoConfigDir));
}

#[test]
fn first_run_starts_from_the_earliest_date() {
    assert_eq!(
        SovConfig::read_last_update(SovConfig::MIN_DATE),
        Ok(Timestamp { secs: -2_208_988_800, nanos: 0 })
    );
}

#[test]
fn stored_time_is_read_without_the_space_around_it() {
    assert_eq!(
        SovConfig::read_last_update("  2024-05-06T07:08:09.5+02:00\n"),
        Ok(Timestamp { secs: 1_714_972_089, nanos: 500_000_000 })
    );
}

#[test]
fn stored_time_that_is_no_date_is_an_error() {
    match SovConfig::read_last_update("yesterday") {
        Err(SovError::Chrono(message)) => assert!(!message.is_empty()),
        other => panic!("unexpected {:?}", other),
    }
    assert!(matches!(SovConfig::read_last_update(""), Err(SovError::Chrono(_))));
    assert!(matches!(SovConfig::read_last_update("2024 -05-06T07:08:09Z"), Err(SovError::Chrono(_))));
}

#[test]
fn configuration_without_a_notes_directory_is_an_error() {
    let t = Timestamp { secs: 0, nanos: 0 };
    assert_eq!(SovConfig::load("/cfg/sov", t, toml(""), true), Err(SovError::NoNotesDir));
    assert_eq!(SovConfig::load("/cfg/sov", t, toml(""), false), Err(SovError::NoNotesDir));
}

#[test]
fn notes_directory_has_to_be_absolute_and_there() {
    let t = Timestamp { secs: 0, nanos: 0 };
    assert_eq!(
        SovConfig::load("/cfg/sov", t, toml("notes"), true),
        Err(SovError::InvalidNotesDir(NotePath::Text("notes".to_string())))
    );
    assert_eq!(
        SovConfig::load("/cfg/sov", t, toml("/notes"), false),
        Err(SovError::InvalidNotesDir(NotePath::Text("/notes".to_string())))
    );
}

#[test]
fn paths_are_taken_below_the_notes_directory() {
    let t = Timestamp { secs: 7, nanos: 9 };
    let config = SovConfig::load("/cfg/sov", t, toml("/notes"), true).unwrap();
    assert_eq!(config.config_dir, "/cfg/sov");
    assert_eq!(config.last_update_path, "/cfg/sov/last_update");
    assert_eq!(config.db_path, "/cfg/sov/sov.db3");
    assert_eq!(config.toml_path, "/cfg/sov/sov.toml");
    assert_eq!(config.last_update, t);
    assert_eq!(config.toml.notes_dir, "/notes");
    assert_eq!(config.toml.daily_notes_dir, "/notes/daily");
    assert_eq!(config.toml.scripts_dir, "/opt/scripts");
    assert_eq!(config.toml.ignore_dirs, vec!["/notes/private", "/elsewhere", "/notes/a/b"]);
}

#[test]
fn time_of_the_last_pass_is_recorded() {
    let mut config = SovConfig::load("/cfg/sov", Timestamp { secs: 7, nanos: 9 }, toml("/notes"), true).unwrap();
    config.update_last_update(Timestamp { secs: 100, nanos: 1 });
    assert_eq!(config.last_update, Timestamp { secs: 100, nanos: 1 });
    assert_eq!(config.db_path, "/cfg/sov/sov.db3");
    assert_eq!(config.toml.notes_dir, "/notes");
}
