//! Lifecycle scenarios: bounded concurrency, the drain window, destroy
//! semantics, and the close callbacks.

use snapshot_db_manager::db::KvPair;
use snapshot_db_manager::epoch::Hash256;
use snapshot_db_manager::errors::Error;
use snapshot_db_manager::manager::{CopyType, Platform, SnapshotDbManagerSqlite, SnapshotInfo};

fn epoch(b: u8) -> Hash256 {
    Hash256::from_bytes(vec![b; 32])
}

fn kv(k: &str, v: &str) -> KvPair {
    KvPair { key: k.as_bytes().to_vec(), value: v.as_bytes().to_vec() }
}

fn manager(max_open: u16) -> SnapshotDbManagerSqlite {
    SnapshotDbManagerSqlite::new(
        "/data/snapshot".to_string(),
        max_open,
        false,
        None,
        5,
        Platform::Other,
        false,
    )
    .expect("construction succeeds")
}

fn publish(m: &mut SnapshotDbManagerSqlite, parent: &Hash256, e: &Hash256, height: u64) {
    let info = SnapshotInfo { merkle_root: Hash256::null_epoch() };
    m.new_snapshot_by_merging(parent, e.duplicate(), vec![kv("k", "v")], info, height)
        .expect("merge succeeds");
}

#[test]
fn null_epoch_returns_synthetic_handle() {
    let mut m = manager(2);
    let h = m
        .get_snapshot_by_epoch_id(&Hash256::null_epoch(), false, false)
        .expect("no error")
        .expect("some handle");
    assert!(h.is_null);
    m.release_snapshot(h);
}

#[test]
fn missing_epoch_is_absent() {
    let mut m = manager(2);
    let r = m.get_snapshot_by_epoch_id(&epoch(9), false, false).expect("no error");
    assert!(r.is_none());
}

#[test]
fn bounded_concurrency_try_open() {
    let mut m = manager(2);
    let null = Hash256::null_epoch();
    publish(&mut m, &null, &epoch(1), 1);
    publish(&mut m, &epoch(1), &epoch(2), 2);
    publish(&mut m, &epoch(2), &epoch(3), 3);

    let h1 = m.get_snapshot_by_epoch_id(&epoch(1), true, false).unwrap().unwrap();
    let _h2 = m.get_snapshot_by_epoch_id(&epoch(2), true, false).unwrap().unwrap();
    // Two permits are out; a third non-blocking open is refused without
    // side effects.
    assert_eq!(
        m.get_snapshot_by_epoch_id(&epoch(3), true, false),
        Err(Error::SemaphoreTryAcquire)
    );
    // Dropping one handle (release, then the close callback) frees a
    // permit and the retry succeeds.
    let p1 = h1.snapshot_path.clone();
    m.release_snapshot(h1);
    m.on_close(&p1);
    let h3 = m.get_snapshot_by_epoch_id(&epoch(3), true, false).unwrap();
    assert!(h3.is_some());
}

#[test]
fn parallel_readers_share_one_open() {
    let mut m = manager(1);
    publish(&mut m, &Hash256::null_epoch(), &epoch(1), 1);
    let h1 = m.get_snapshot_by_epoch_id(&epoch(1), true, false).unwrap().unwrap();
    // The single permit is out, yet a second reader of the same epoch
    // attaches to the open database rather than opening again.
    let h2 = m.get_snapshot_by_epoch_id(&epoch(1), true, false).unwrap().unwrap();
    assert_eq!(h1.snapshot_path, h2.snapshot_path);
    assert_eq!(h1.merkle_root_word, h2.merkle_root_word);
    // A different epoch would need a fresh open and is refused.
    publish_would_block(&mut m);
    m.release_snapshot(h2);
    m.release_snapshot(h1);
}

fn publish_would_block(m: &mut SnapshotDbManagerSqlite) {
    // With all permits out, a non-blocking open of anything not already
    // open fails.
    let r = m.get_snapshot_by_epoch_id(&epoch(250), true, false);
    assert!(r == Ok(None) || r == Err(Error::SemaphoreTryAcquire));
}

#[test]
fn drain_window_suspends_then_reopens() {
    let mut m = manager(2);
    publish(&mut m, &Hash256::null_epoch(), &epoch(1), 1);
    // Reader A holds the snapshot.
    let a = m.get_snapshot_by_epoch_id(&epoch(1), false, false).unwrap().unwrap();
    let path = a.snapshot_path.clone();
    // A drops; the key enters the drain window until the destructor runs.
    m.release_snapshot(a);
    // B's open lands in the drain window: it must wait, never observe
    // "absent" while the directory exists.
    assert_eq!(m.get_snapshot_by_epoch_id(&epoch(1), false, false), Err(Error::WouldBlock));
    // The destructor completes; B's retry opens from disk.
    m.on_close(&path);
    let b = m.get_snapshot_by_epoch_id(&epoch(1), false, false).unwrap();
    assert!(b.is_some());
}

#[test]
fn destroy_with_reader_defers_removal() {
    let mut m = manager(2);
    publish(&mut m, &Hash256::null_epoch(), &epoch(1), 1);
    let h = m.get_snapshot_by_epoch_id(&epoch(1), false, false).unwrap().unwrap();
    // Destroy returns immediately; the reader keeps working and the
    // directory persists: a new reader still attaches.
    m.destroy_snapshot(&epoch(1)).expect("destroy succeeds");
    let h2 = m.get_snapshot_by_epoch_id(&epoch(1), false, false).unwrap().unwrap();
    let path = h.snapshot_path.clone();
    m.release_snapshot(h2);
    m.release_snapshot(h);
    // The last drop fires the removal: after the close callback the
    // directory is gone.
    m.on_close(&path);
    assert_eq!(m.get_snapshot_by_epoch_id(&epoch(1), false, false), Ok(None));
}

#[test]
fn destroy_twice_is_a_no_op() {
    let mut m = manager(2);
    publish(&mut m, &Hash256::null_epoch(), &epoch(1), 1);
    m.destroy_snapshot(&epoch(1)).expect("first destroy");
    m.destroy_snapshot(&epoch(1)).expect("second destroy is a no-op");
    assert_eq!(m.get_snapshot_by_epoch_id(&epoch(1), false, false), Ok(None));
}

#[test]
fn destroy_null_epoch_touches_nothing() {
    let mut m = manager(2);
    m.destroy_snapshot(&Hash256::null_epoch()).expect("null destroy is fine");
    let h = m
        .get_snapshot_by_epoch_id(&Hash256::null_epoch(), false, false)
        .unwrap()
        .unwrap();
    assert!(h.is_null);
}

#[test]
fn merge_over_published_epoch_is_refused() {
    let mut m = manager(2);
    publish(&mut m, &Hash256::null_epoch(), &epoch(1), 1);
    let info = SnapshotInfo { merkle_root: Hash256::null_epoch() };
    let r = m.new_snapshot_by_merging(
        &Hash256::null_epoch(),
        epoch(1),
        vec![kv("k", "v")],
        info,
        1,
    );
    assert!(matches!(r, Err(Error::SnapshotAlreadyExists)));
}

#[test]
fn merge_from_missing_parent_is_refused() {
    let mut m = manager(2);
    let info = SnapshotInfo { merkle_root: Hash256::null_epoch() };
    let r = m.new_snapshot_by_merging(&epoch(7), epoch(8), vec![kv("k", "v")], info, 2);
    assert!(matches!(r, Err(Error::SnapshotNotFound)));
}

#[test]
fn forced_cow_without_reflink_is_refused() {
    let mut m = SnapshotDbManagerSqlite::new(
        "/data/snapshot".to_string(),
        2,
        false,
        None,
        5,
        Platform::Other,
        true,
    )
    .expect("construction succeeds");
    publish_genesis_forced(&mut m);
}

fn publish_genesis_forced(m: &mut SnapshotDbManagerSqlite) {
    // A genesis merge copies nothing and is fine even under force_cow.
    let info = SnapshotInfo { merkle_root: Hash256::null_epoch() };
    m.new_snapshot_by_merging(&Hash256::null_epoch(), epoch(1), vec![kv("k", "v")], info, 1)
        .expect("genesis merge needs no copy");
    // The incremental merge needs the directory copy, and byte-wise
    // fallback is forbidden.
    let info = SnapshotInfo { merkle_root: Hash256::null_epoch() };
    let r = m.new_snapshot_by_merging(&epoch(1), epoch(2), vec![kv("k2", "v2")], info, 2);
    assert!(matches!(r, Err(Error::SnapshotCowCreation)));
}

#[test]
fn update_latest_snapshot_id_moves_the_pointer() {
    let mut m = manager(2);
    m.update_latest_snapshot_id(epoch(4), 40);
    // Only observable through behaviour; the pointer decides the MPT
    // fallback path, covered in the merge-and-sync scenarios.
    assert_eq!(m.get_snapshot_dir().as_str(), "/data/snapshot");
    assert_eq!(m.get_mpt_snapshot_dir().as_str(), "/data/mpt_snapshot");
}

#[test]
fn destroy_in_drain_window_suspends() {
    let mut m = manager(2);
    publish(&mut m, &Hash256::null_epoch(), &epoch(1), 1);
    let h = m.get_snapshot_by_epoch_id(&epoch(1), false, false).unwrap().unwrap();
    let path = h.snapshot_path.clone();
    m.release_snapshot(h);
    // The last owner is gone but the destructor has not run: destroy must
    // wait for the close to finish.
    assert_eq!(m.destroy_snapshot(&epoch(1)), Err(Error::WouldBlock));
    m.on_close(&path);
    m.destroy_snapshot(&epoch(1)).expect("destroy after the close");
    assert_eq!(m.get_snapshot_by_epoch_id(&epoch(1), false, false), Ok(None));
}

#[test]
fn copy_decision_follows_platform_and_force_cow() {
    let linux = SnapshotDbManagerSqlite::new(
        "/data/snapshot".to_string(),
        2,
        false,
        None,
        5,
        Platform::Linux,
        false,
    )
    .unwrap();
    assert_eq!(linux.try_copy_snapshot(), Ok(CopyType::Cow));
    let other = manager(2);
    assert_eq!(other.try_copy_snapshot(), Ok(CopyType::Std));
    let forced = SnapshotDbManagerSqlite::new(
        "/data/snapshot".to_string(),
        2,
        false,
        None,
        5,
        Platform::Other,
        true,
    )
    .unwrap();
    assert_eq!(forced.try_copy_snapshot(), Err(Error::SnapshotCowCreation));
}

#[test]
fn defragmentation_trigger() {
    let linux = SnapshotDbManagerSqlite::new(
        "/data/snapshot".to_string(),
        2,
        false,
        None,
        5,
        Platform::Linux,
        false,
    )
    .unwrap();
    let mut aligned = vec![0x11u8; 32];
    aligned[31] = 0x20;
    let e_aligned = Hash256::from_bytes(aligned);
    assert!(linux.defragmentation_due(true, &e_aligned));
    assert!(!linux.defragmentation_due(false, &e_aligned));
    assert!(!linux.defragmentation_due(true, &epoch(0x11)));
    let other = manager(2);
    assert!(!other.defragmentation_due(true, &e_aligned));
}
