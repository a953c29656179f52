use dig_stack::error::ErrorKind;
use dig_stack::migrate::{check_version, migrate_config, migrate_operation, migrate_state};
use dig_stack::model::{DIG_CONFIG_VERSION, DIG_OPERATION_VERSION, DIG_STATE_VERSION};

#[test]
fn state_current_version_passes_through_unchanged() {
    assert_eq!(migrate_state(Some(DIG_STATE_VERSION as u64)).unwrap(), false);
}

#[test]
fn state_future_version_returns_upgrade_error() {
    let err = migrate_state(Some(DIG_STATE_VERSION as u64 + 1)).unwrap_err();

    assert_eq!(err.kind, ErrorKind::InvalidData);
    assert!(err.to_string().contains("upgrade dgr"));
    assert_eq!(err.message, "state version 2 is newer than supported version 1; upgrade dgr");
}

#[test]
fn state_missing_version_returns_error() {
    let err = migrate_state(None).unwrap_err();

    assert_eq!(err.kind, ErrorKind::InvalidData);
    assert!(err.to_string().contains("missing 'version' field"));
}

#[test]
fn state_migration_preserves_all_fields() {
    assert_eq!(migrate_state(Some(0)).unwrap(), true);
}

#[test]
fn config_current_version_passes_through_unchanged() {
    assert_eq!(migrate_config(Some(DIG_CONFIG_VERSION as u64)).unwrap(), false);
}

#[test]
fn config_future_version_returns_upgrade_error() {
    let err = migrate_config(Some(DIG_CONFIG_VERSION as u64 + 1)).unwrap_err();

    assert_eq!(err.kind, ErrorKind::InvalidData);
    assert!(err.to_string().contains("upgrade dgr"));
}

#[test]
fn config_missing_version_returns_error() {
    let err = migrate_config(None).unwrap_err();

    assert_eq!(err.kind, ErrorKind::InvalidData);
    assert_eq!(err.message, "config file missing 'version' field");
}

#[test]
fn operation_current_version_passes_through_unchanged() {
    assert_eq!(migrate_operation(Some(DIG_OPERATION_VERSION as u64)).unwrap(), false);
}

#[test]
fn operation_future_version_returns_upgrade_error() {
    let err = migrate_operation(Some(DIG_OPERATION_VERSION as u64 + 1)).unwrap_err();

    assert_eq!(err.kind, ErrorKind::InvalidData);
    assert!(err.to_string().contains("upgrade dgr"));
}

#[test]
fn operation_missing_version_returns_error() {
    let err = migrate_operation(None).unwrap_err();

    assert_eq!(err.kind, ErrorKind::InvalidData);
    assert!(err.to_string().contains("missing 'version' field"));
}

#[test]
fn version_is_read_as_a_32_bit_number() {
    assert_eq!(check_version(Some((1u64 << 32) + 1), 1, "state").unwrap(), false);
}
