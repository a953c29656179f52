use dig_stack::error::ErrorKind;
use dig_stack::model::DigConfig;
use dig_stack::store::{dagger_paths, initialize_store, join_path, lock_held_error, lock_path_for, require_config};

#[test]
fn places_store_files_under_the_git_directory() {
    let paths = dagger_paths("/repo/.git");
    assert_eq!(paths.root, "/repo/.git/.dagger");
    assert_eq!(paths.config_file, "/repo/.git/.dagger/config.json");
    assert_eq!(paths.operation_file, "/repo/.git/.dagger/operation.json");
    assert_eq!(paths.state_file, "/repo/.git/.dagger/state.json");
    assert_eq!(paths.events_file, "/repo/.git/.dagger/events.ndjson");
    assert_eq!(join_path("/repo/", "x"), "/repo/x");
    assert_eq!(join_path("", "x"), "x");
    assert_eq!(lock_path_for("/repo/.git/.dagger"), "/repo/.git/.dagger/lock");
}

#[test]
fn explains_a_held_lock() {
    let err = lock_held_error("/r/.dagger/lock");
    assert_eq!(err.kind, ErrorKind::Other);
    assert_eq!(
        err.message,
        "another dgr process appears to be running; if this is incorrect, delete '/r/.dagger/lock'"
    );
}

#[test]
fn bootstraps_only_missing_files() {
    let init = initialize_store(true, false, true);
    assert!(!init.created_config);
    assert!(init.created_state);
    assert!(!init.created_events);
    assert!(init.created_anything());
    assert!(!initialize_store(true, true, true).created_anything());
}

#[test]
fn requires_an_initialized_store() {
    assert_eq!(require_config(Some(DigConfig::new("main".into())), "x").unwrap().trunk_branch, "main");
    assert_eq!(require_config(None, "dig is not initialized").unwrap_err().message, "dig is not initialized");
}
