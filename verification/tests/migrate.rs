use empire_core::cache::Cache;
use empire_core::cache::CacheError;
use empire_core::migrate::LATEST_SCHEMA_VERSION;
use empire_core::ping;

#[test]
fn migrate_seeds_default_settings() {
    let mut c = Cache::new();
    assert_eq!(c.schema_version(), 0);
    c.migrate(100).unwrap();
    assert_eq!(c.schema_version(), LATEST_SCHEMA_VERSION);
    assert_eq!(c.settings_count(), 4);
    assert_eq!(c.get_setting("theme"), Some(String::from("\"dark\"")));
    assert_eq!(c.get_setting("fontSize"), Some(String::from("\"medium\"")));
    assert_eq!(c.get_setting("keyboardShortcutsEnabled"), Some(String::from("true")));
    assert_eq!(
        c.get_setting("apiEndpoint"),
        Some(String::from("\"https://jb-empire-api.onrender.com\""))
    );
}

#[test]
fn rerunning_migrations_is_a_noop() {
    let mut c = Cache::new();
    c.migrate(100).unwrap();
    c.migrate(200).unwrap();
    c.migrate(300).unwrap();
    assert_eq!(c.schema_version(), LATEST_SCHEMA_VERSION);
    assert_eq!(c.settings_count(), 4);
    assert_eq!(c.get_setting("theme"), Some(String::from("\"dark\"")));
}

#[test]
fn seeding_does_not_overwrite_existing_values() {
    let mut c = Cache::new();
    c.set_setting(String::from("theme"), String::from("\"light\""), 5);
    c.migrate(100).unwrap();
    assert_eq!(c.get_setting("theme"), Some(String::from("\"light\"")));
    assert_eq!(c.settings_count(), 4);
}

#[test]
fn already_applied_version_is_skipped() {
    let mut c = Cache::new();
    assert_eq!(c.apply_migration(1, 10), Ok(true));
    assert_eq!(c.apply_migration(1, 20), Ok(false));
    assert_eq!(c.settings_count(), 4);
}

#[test]
fn version_gap_is_a_fatal_error() {
    let mut c = Cache::new();
    assert_eq!(c.apply_migration(3, 10), Err(CacheError::MigrationGap));
    assert_eq!(c.schema_version(), 0);
    assert_eq!(c.settings_count(), 0);
}

#[test]
fn unknown_next_version_is_a_fatal_error() {
    let mut c = Cache::new();
    c.migrate(100).unwrap();
    assert_eq!(
        c.apply_migration(LATEST_SCHEMA_VERSION + 1, 200),
        Err(CacheError::UnknownMigration)
    );
    assert_eq!(c.schema_version(), LATEST_SCHEMA_VERSION);
}

#[test]
fn ping_answers_pong() {
    assert_eq!(ping(), "pong");
}
