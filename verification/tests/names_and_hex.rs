//! Naming, hex codec, and small-type behaviour, exercised on concrete
//! values.

use snapshot_db_manager::epoch::Hash256;
use snapshot_db_manager::errors::Error;
use snapshot_db_manager::gas::gas_used;
use snapshot_db_manager::hexchars::{bytes_of_hex_str, hex_string_of_bytes, hex_val_of_char};
use snapshot_db_manager::names::{
    full_sync_temp_db_name, get_epoch_id_from_snapshot_db_name, is_temp_snapshot_db_path,
    join_path, latest_mpt_db_name, merge_temp_db_name, parent_dir, snapshot_db_name,
};
use snapshot_db_manager::validator_config::ValidatorOperatorConfigResource;

fn epoch(b: u8) -> Hash256 {
    Hash256::from_bytes(vec![b; 32])
}

#[test]
fn hex_encodes_lower_case_pairs() {
    let s = hex_string_of_bytes(&vec![0x00u8, 0xff, 0x1a]);
    assert_eq!(s, "00ff1a");
    let empty = hex_string_of_bytes(&Vec::new());
    assert_eq!(empty, "");
}

#[test]
fn hex_digit_values() {
    assert_eq!(hex_val_of_char('0'), Some(0));
    assert_eq!(hex_val_of_char('f'), Some(15));
    assert_eq!(hex_val_of_char('A'), None);
    assert_eq!(hex_val_of_char('g'), None);
}

#[test]
fn hex_parses_back() {
    let parsed = bytes_of_hex_str("00ff1a", 0, 3).expect("valid hex");
    assert_eq!(parsed, vec![0x00u8, 0xff, 0x1a]);
    assert!(bytes_of_hex_str("00fg", 0, 2).is_none());
}

#[test]
fn snapshot_db_name_shape() {
    let name = snapshot_db_name(&epoch(0x01));
    assert_eq!(name, format!("sqlite_{}", "01".repeat(32)));
}

#[test]
fn snapshot_db_name_round_trips() {
    let e = epoch(0xa7);
    let name = snapshot_db_name(&e);
    let back = get_epoch_id_from_snapshot_db_name(&name).expect("parses");
    assert!(back.same_as(&e));
}

#[test]
fn snapshot_db_name_rejects_malformed() {
    assert_eq!(
        get_epoch_id_from_snapshot_db_name("sqlite_zz"),
        Err(Error::InvalidSnapshotDbName)
    );
    assert_eq!(
        get_epoch_id_from_snapshot_db_name(&format!("sqlitex{}", "01".repeat(32))),
        Err(Error::InvalidSnapshotDbName)
    );
    let bad_hex = format!("sqlite_{}zz", "01".repeat(31));
    assert_eq!(
        get_epoch_id_from_snapshot_db_name(&bad_hex),
        Err(Error::InvalidSnapshotDbName)
    );
    assert_eq!(
        get_epoch_id_from_snapshot_db_name(""),
        Err(Error::InvalidSnapshotDbName)
    );
}

#[test]
fn temp_names_are_recognized() {
    let m = merge_temp_db_name(&epoch(1), &epoch(2));
    assert!(is_temp_snapshot_db_path(&m));
    assert!(!is_temp_snapshot_db_path(&snapshot_db_name(&epoch(1))));
    assert!(!is_temp_snapshot_db_path("sqlite_latest"));
    let f = full_sync_temp_db_name(&epoch(5), &epoch(0xab));
    assert!(f.starts_with("sqlite_full_sync_temp_"));
}

#[test]
fn latest_name_and_joins() {
    assert_eq!(latest_mpt_db_name(), "sqlite_latest");
    assert_eq!(join_path("/data/snapshot", "sqlite_latest"), "/data/snapshot/sqlite_latest");
    assert_eq!(parent_dir("/data/snapshot"), Some("/data".to_string()));
    assert_eq!(parent_dir("nodirs"), None);
}

#[test]
fn null_epoch_is_null() {
    let n = Hash256::null_epoch();
    assert!(n.is_null());
    assert!(!epoch(1).is_null());
    assert!(n.same_as(&Hash256::from_bytes(vec![0u8; 32])));
}

#[test]
fn gas_used_caps_refund_at_a_fifth() {
    assert_eq!(gas_used(100, 10), 90);
    assert_eq!(gas_used(100, 50), 80);
    assert_eq!(gas_used(100, 20), 80);
    assert_eq!(gas_used(0, 7), 0);
    assert_eq!(gas_used(4, 1), 4);
}

#[test]
fn operator_config_resource_holds_name() {
    let r = ValidatorOperatorConfigResource::new(b"operator".to_vec());
    assert_eq!(r.human_name, b"operator".to_vec());
    let d = ValidatorOperatorConfigResource::default();
    assert_eq!(d.human_name, Vec::<u8>::new());
}

#[test]
fn error_descriptions_are_nonempty() {
    let all = [
        Error::SnapshotAlreadyExists,
        Error::SnapshotNotFound,
        Error::SemaphoreTryAcquire,
        Error::WouldBlock,
        Error::SnapshotCowCreation,
        Error::MptMissing,
        Error::MptTableNotInSnapshot,
        Error::LatestMptHeldForWrite,
        Error::SnapshotHeldForWrite,
        Error::InvalidSnapshotDbName,
    ];
    for e in all {
        assert!(!e.describe().is_empty());
    }
}
