//! Merge, full-sync import, and recovery scenarios, with content checked
//! through the recorded roots.

use snapshot_db_manager::db::{merkle_hash_of_word, DbStore, KvPair};
use snapshot_db_manager::epoch::Hash256;
use snapshot_db_manager::errors::Error;
use snapshot_db_manager::manager::{Platform, SnapshotDbManagerSqlite, SnapshotInfo};

fn epoch(b: u8) -> Hash256 {
    Hash256::from_bytes(vec![b; 32])
}

fn kv(k: &str, v: &str) -> KvPair {
    KvPair { key: k.as_bytes().to_vec(), value: v.as_bytes().to_vec() }
}

fn blank_info() -> SnapshotInfo {
    SnapshotInfo { merkle_root: Hash256::null_epoch() }
}

fn flat_manager(platform: Platform) -> SnapshotDbManagerSqlite {
    SnapshotDbManagerSqlite::new(
        "/data/snapshot".to_string(),
        4,
        false,
        None,
        5,
        platform,
        false,
    )
    .expect("construction succeeds")
}

fn isolated_manager() -> SnapshotDbManagerSqlite {
    SnapshotDbManagerSqlite::new(
        "/data/snapshot".to_string(),
        4,
        true,
        None,
        5,
        Platform::Linux,
        false,
    )
    .expect("construction succeeds")
}

#[test]
fn genesis_merge_publishes_and_reopens() {
    let mut m = flat_manager(Platform::Other);
    let delta = vec![kv("k1", "v1")];
    let info = m
        .new_snapshot_by_merging(
            &Hash256::null_epoch(),
            epoch(1),
            vec![kv("k1", "v1")],
            blank_info(),
            1,
        )
        .expect("genesis merge succeeds");

    // The canonical directory now answers the epoch-id lookup.
    let h = m.get_snapshot_by_epoch_id(&epoch(1), false, false).unwrap().unwrap();
    assert_eq!(h.snapshot_path, m.get_snapshot_db_path(&epoch(1)));
    assert!(!h.is_null);

    // The handle's root matches the engine's output: an equivalent
    // database built directly records the same root.
    let mut reference = DbStore::empty(true);
    reference.dump_delta(delta);
    let expected = reference.direct_merge();
    assert_eq!(h.merkle_root_word, expected);
    assert!(merkle_hash_of_word(h.merkle_root_word).same_as(&info.merkle_root));
}

#[test]
fn incremental_merge_applies_delta_over_parent() {
    let mut m = flat_manager(Platform::Linux);
    m.new_snapshot_by_merging(
        &Hash256::null_epoch(),
        epoch(1),
        vec![kv("k1", "v1")],
        blank_info(),
        1,
    )
    .expect("genesis");
    let info2 = m
        .new_snapshot_by_merging(
            &epoch(1),
            epoch(2),
            vec![kv("k1", "v1x"), kv("k2", "v2")],
            blank_info(),
            2,
        )
        .expect("incremental merge succeeds");

    // The parent stays published and untouched.
    let h1 = m.get_snapshot_by_epoch_id(&epoch(1), false, false).unwrap().unwrap();
    let mut ref1 = DbStore::empty(true);
    ref1.dump_delta(vec![kv("k1", "v1")]);
    assert_eq!(h1.merkle_root_word, ref1.direct_merge());

    // The child holds the parent's rows with the delta upserted.
    let h2 = m.get_snapshot_by_epoch_id(&epoch(2), false, false).unwrap().unwrap();
    let mut ref2 = DbStore::empty(true);
    ref2.dump_delta(vec![kv("k1", "v1")]);
    ref2.direct_merge();
    ref2.dump_delta(vec![kv("k1", "v1x"), kv("k2", "v2")]);
    let expected2 = ref2.direct_merge();
    assert_eq!(h2.merkle_root_word, expected2);
    assert!(merkle_hash_of_word(expected2).same_as(&info2.merkle_root));

    // The staging directory never became reachable by lookup: only the
    // two canonical epochs exist.
    assert!(m.get_snapshot_by_epoch_id(&epoch(3), false, false).unwrap().is_none());
}

#[test]
fn isolated_mpt_snapshot_opens_alongside() {
    let mut m = isolated_manager();
    m.new_snapshot_by_merging(
        &Hash256::null_epoch(),
        epoch(1),
        vec![kv("k1", "v1")],
        blank_info(),
        1,
    )
    .expect("genesis");
    // The genesis merge created the per-epoch MPT database; a reader asking
    // for the MPT side gets it attached.
    let h = m.get_snapshot_by_epoch_id(&epoch(1), false, true).unwrap().unwrap();
    assert_eq!(
        h.mpt_snapshot_path,
        Some(m.get_mpt_snapshot_db_path(&epoch(1)))
    );
    m.release_snapshot(h);
}

#[test]
fn missing_mpt_database_is_reported() {
    let mut m = isolated_manager();
    m.new_snapshot_by_merging(
        &Hash256::null_epoch(),
        epoch(1),
        vec![kv("k1", "v1")],
        blank_info(),
        1,
    )
    .expect("genesis");
    // Height 2 is no checkpoint (era is 5), so the incremental merge
    // leaves no per-epoch MPT for epoch 2.
    m.new_snapshot_by_merging(&epoch(1), epoch(2), vec![kv("k2", "v2")], blank_info(), 2)
        .expect("incremental");
    // While epoch 2 backs the latest MPT, its reader falls back to the
    // `latest` directory.
    let h = m.get_snapshot_by_epoch_id(&epoch(2), false, true).unwrap().unwrap();
    assert_eq!(h.mpt_snapshot_path, Some(m.get_latest_mpt_snapshot_db_path()));
    let data_path = h.snapshot_path.clone();
    let mpt_path = h.mpt_snapshot_path.clone().unwrap();
    m.release_snapshot(h);
    m.on_close(&data_path);
    m.on_close_mpt_snapshot(&mpt_path);
    // Once the pointer moves on, neither the per-epoch directory nor the
    // fallback serves epoch 2: the MPT is reported missing.
    m.update_latest_snapshot_id(epoch(9), 9);
    assert_eq!(
        m.get_snapshot_by_epoch_id(&epoch(2), false, true),
        Err(Error::MptMissing)
    );
}

#[test]
fn era_checkpoint_copies_latest_mpt() {
    let mut m = isolated_manager();
    m.new_snapshot_by_merging(
        &Hash256::null_epoch(),
        epoch(1),
        vec![kv("k1", "v1")],
        blank_info(),
        1,
    )
    .expect("genesis");
    for (b, h) in [(2u8, 2u64), (3, 3), (4, 4)] {
        m.new_snapshot_by_merging(
            &epoch(b - 1),
            epoch(b),
            vec![kv("k", "v")],
            blank_info(),
            h,
        )
        .expect("incremental");
    }
    // Height 5 is a checkpoint: the latest MPT is duplicated into the
    // per-epoch directory, so epoch 5's reader finds its own MPT.
    m.new_snapshot_by_merging(&epoch(4), epoch(5), vec![kv("k5", "v5")], blank_info(), 5)
        .expect("checkpoint merge");
    let h = m.get_snapshot_by_epoch_id(&epoch(5), false, true).unwrap().unwrap();
    assert_eq!(h.mpt_snapshot_path, Some(m.get_mpt_snapshot_db_path(&epoch(5))));
}

#[test]
fn latest_mpt_writer_blocks_pessimistic_reader() {
    let mut m = isolated_manager();
    m.new_snapshot_by_merging(
        &Hash256::null_epoch(),
        epoch(1),
        vec![kv("k1", "v1")],
        blank_info(),
        1,
    )
    .expect("genesis");
    // A full-sync staging writer holds the single latest-MPT permit.
    let w = m
        .new_temp_snapshot_for_full_sync(&epoch(6), &epoch(0xab), 6)
        .expect("staging writer");
    // Epoch 1 backs the latest MPT at a non-checkpoint height, so its
    // reader takes the latest permit pessimistically — and is refused
    // while the writer holds it.
    m.update_latest_snapshot_id(epoch(1), 1);
    assert_eq!(
        m.get_snapshot_by_epoch_id(&epoch(1), false, true),
        Err(Error::LatestMptHeldForWrite)
    );
    m.close_write_handle(w);
    let h = m.get_snapshot_by_epoch_id(&epoch(1), false, true).unwrap().unwrap();
    assert!(h.mpt_snapshot_path.is_some());
}

#[test]
fn full_sync_finalize_publishes_data_and_checkpoint() {
    let mut m = isolated_manager();
    let root = epoch(0xab);
    let w = m
        .new_temp_snapshot_for_full_sync(&epoch(5), &root, 5)
        .expect("staging writer");
    assert_eq!(w.snapshot_path, m.get_full_sync_temp_snapshot_db_path(&epoch(5), &root));
    m.dump_into_open_snapshot(&w, vec![kv("s1", "w1"), kv("s2", "w2")])
        .expect("stream state");

    // Finalizing under a live writer is refused.
    assert_eq!(
        m.finalize_full_sync_snapshot(&epoch(5), &root),
        Err(Error::SnapshotHeldForWrite)
    );
    m.close_write_handle(w);
    m.finalize_full_sync_snapshot(&epoch(5), &root).expect("finalize succeeds");

    // The canonical data directory is published, and the per-epoch MPT
    // checkpoint exists as a copy of the new latest.
    let h = m.get_snapshot_by_epoch_id(&epoch(5), false, true).unwrap().unwrap();
    assert_eq!(h.snapshot_path, m.get_snapshot_db_path(&epoch(5)));
    assert_eq!(h.mpt_snapshot_path, Some(m.get_mpt_snapshot_db_path(&epoch(5))));

    // The imported content is what was streamed.
    let mut reference = DbStore::empty(false);
    reference.dump_delta(vec![kv("s1", "w1"), kv("s2", "w2")]);
    assert_eq!(h.merkle_root_word, reference.direct_merge());
}

#[test]
fn recovery_rebuilds_latest_from_checkpoint_idempotently() {
    let mut m = isolated_manager();
    m.new_snapshot_by_merging(
        &Hash256::null_epoch(),
        epoch(1),
        vec![kv("k1", "v1")],
        blank_info(),
        1,
    )
    .expect("genesis");
    // The per-epoch MPT of epoch 1 exists; recovery restores latest from
    // it, and doing it again changes nothing.
    m.recovery_latest_mpt_snapshot(&epoch(1)).expect("first recovery");
    m.recovery_latest_mpt_snapshot(&epoch(1)).expect("second recovery is a no-op");
    let h = m.get_snapshot_by_epoch_id(&epoch(1), false, true).unwrap().unwrap();
    assert!(h.mpt_snapshot_path.is_some());
    m.release_snapshot(h);
    // With no checkpoint at all, recovery recreates an empty latest.
    m.recovery_latest_mpt_snapshot(&epoch(42)).expect("recreate empty latest");
}

#[test]
fn db_store_merges_and_looks_up() {
    let mut db = DbStore::empty(true);
    db.dump_delta(vec![kv("a", "1"), kv("b", "2"), kv("a", "3")]);
    db.direct_merge();
    // Later dump rows win: the dump is applied in order.
    assert_eq!(db.get_value(&b"a".to_vec()), Some(&b"3".to_vec()));
    assert_eq!(db.get_value(&b"b".to_vec()), Some(&b"2".to_vec()));
    assert_eq!(db.get_value(&b"c".to_vec()), None);
    assert_eq!(db.row_count(), 2);
}

#[test]
fn db_store_copy_and_merge_matches_direct_path() {
    let mut parent = DbStore::empty(true);
    parent.dump_delta(vec![kv("a", "1"), kv("b", "2")]);
    parent.direct_merge();

    // The byte-wise fallback (copy then merge) ends in the same content
    // as copying first and merging directly.
    let mut fallback = DbStore::empty(true);
    fallback.dump_delta(vec![kv("b", "2x"), kv("c", "3")]);
    let root_fallback = fallback.copy_and_merge(&parent);

    let mut direct = parent.duplicate();
    direct.dump_delta(vec![kv("b", "2x"), kv("c", "3")]);
    let root_direct = direct.direct_merge();

    assert_eq!(root_fallback, root_direct);
    assert_eq!(fallback.get_value(&b"a".to_vec()), Some(&b"1".to_vec()));
    assert_eq!(fallback.get_value(&b"b".to_vec()), Some(&b"2x".to_vec()));
}

#[test]
fn roots_depend_on_content() {
    let mut one = DbStore::empty(true);
    one.dump_delta(vec![kv("a", "1")]);
    let r1 = one.direct_merge();
    let mut two = DbStore::empty(true);
    two.dump_delta(vec![kv("a", "2")]);
    let r2 = two.direct_merge();
    assert_ne!(r1, r2);
    assert!(!merkle_hash_of_word(r1).same_as(&merkle_hash_of_word(r2)));
}
