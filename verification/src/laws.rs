//! The manager's laws: invariants and round-trip properties, proved over
//! the transition functions that the operations' contracts are stated
//! with.

use vstd::prelude::*;
use crate::epoch::spec_null_hash;
use crate::errors::Error;
use crate::manager::{
    cfg_inv, data_attached, data_drained, lemma_merge_paths_distinct, spec_data_db_path,
    spec_destroy_data, spec_destroy_fail_data, spec_destroy_fail_mpt, spec_destroy_mpt,
    spec_destroy_step, spec_get_snapshot_ro, spec_latest_mpt_path, spec_merge_db1,
    spec_merge_step, spec_merge_temp_mpt_path, spec_mpt_db_path, spec_on_close_state,
    spec_open_data_write, spec_recovery_step, spec_release_state, st_inv, DataOpenState,
    RoOutcome, SdmConfig, SdmState,
};
use crate::names::{
    spec_full_sync_temp_db_name, spec_merge_temp_db_name, spec_merge_temp_mpt_db_name,
    spec_snapshot_db_name,
};

verus! {

/// A registry key outlives its owners until the close callback: releasing
/// a share never removes the key.  When the last owner goes, the entry
/// stays as a drain-window record (owner count zero), and only
/// `on_close` — the destructor completing — takes the key out.  Together
/// with `spec_on_close_state`, this is the key-present-iff-writer-or-owner
/// invariant, drain window included.
pub proof fn lemma_release_keeps_key(s: SdmState, path: Seq<char>, mpt: Option<Seq<char>>)
    requires
        data_attached(s.registry, path),
    ensures
        spec_release_state(s, false, path, mpt).registry.dom().contains(path),
        ({
            let s1 = spec_release_state(s, false, path, mpt);
            (match s.registry[path] {
                DataOpenState::SharedReaders { owners, .. } => owners == 1,
                DataOpenState::ExclusiveWriter => false,
            }) ==> data_drained(s1.registry[path])
        }),
{
}

/// A finalized snapshot stays retrievable: after a successful merge of a
/// non-null epoch whose canonical path is not registered, a blocking
/// shared open of that epoch returns a handle, and the handle carries the
/// root the merge recorded.
pub proof fn lemma_merged_snapshot_openable(
    cfg: SdmConfig,
    s: SdmState,
    oe: Seq<u8>,
    ne: Seq<u8>,
    delta: Seq<(Seq<u8>, Seq<u8>)>,
    height: u64,
    try_open: bool,
)
    requires
        cfg_inv(cfg),
        oe.len() == 32,
        ne.len() == 32,
        ne != spec_null_hash(),
        spec_merge_step(cfg, s, oe, ne, delta, height).fail is None,
        !s.registry.dom().contains(spec_data_db_path(cfg, ne)),
    ensures
        ({
            let step = spec_merge_step(cfg, s, oe, ne, delta, height);
            let open = spec_get_snapshot_ro(cfg, step.state, ne, try_open, false);
            &&& open.outcome matches RoOutcome::Handle { root, .. } && root == step.root
        }),
{
    lemma_merge_paths_distinct(cfg, oe, ne);
    let step = spec_merge_step(cfg, s, oe, ne, delta, height);
    let final_p = spec_data_db_path(cfg, ne);
    assert(step.state.disk.dom().contains(final_p));
    assert(step.state.disk[final_p] == spec_merge_db1(cfg, s, oe, ne, delta, height));
    assert(!step.state.registry.dom().contains(final_p));
    assert(step.state.data_free > 0);
}

/// A merge never touches the parent snapshot: after publishing the child,
/// the parent's directory holds exactly what it held before.
pub proof fn lemma_merge_preserves_parent(
    cfg: SdmConfig,
    s: SdmState,
    oe: Seq<u8>,
    ne: Seq<u8>,
    delta: Seq<(Seq<u8>, Seq<u8>)>,
    height: u64,
)
    requires
        cfg_inv(cfg),
        oe.len() == 32,
        ne.len() == 32,
        oe != ne,
        oe != spec_null_hash(),
        spec_merge_step(cfg, s, oe, ne, delta, height).fail is None,
    ensures
        ({
            let post = spec_merge_step(cfg, s, oe, ne, delta, height).state;
            &&& post.disk.dom().contains(spec_data_db_path(cfg, oe))
            &&& post.disk[spec_data_db_path(cfg, oe)] == s.disk[spec_data_db_path(cfg, oe)]
        }),
{
    lemma_merge_paths_distinct(cfg, oe, ne);
}

/// What a merge publishes: the parent's rows (none for a genesis merge)
/// with the delta applied in dump order, an empty dump table, and the
/// digest of the merged rows recorded as root.
pub proof fn lemma_merge_content(
    cfg: SdmConfig,
    s: SdmState,
    oe: Seq<u8>,
    ne: Seq<u8>,
    delta: Seq<(Seq<u8>, Seq<u8>)>,
    height: u64,
)
    requires
        cfg_inv(cfg),
        oe.len() == 32,
        ne.len() == 32,
        spec_merge_step(cfg, s, oe, ne, delta, height).fail is None,
    ensures
        ({
            let step = spec_merge_step(cfg, s, oe, ne, delta, height);
            let published = step.state.disk[spec_data_db_path(cfg, ne)];
            let parent_rows = if oe == spec_null_hash() {
                Seq::<(Seq<u8>, Seq<u8>)>::empty()
            } else {
                s.disk[spec_data_db_path(cfg, oe)].rows
            };
            &&& step.state.disk.dom().contains(spec_data_db_path(cfg, ne))
            &&& published.rows == crate::db::spec_apply_delta(parent_rows, delta)
            &&& published.delta == Seq::<(Seq<u8>, Seq<u8>)>::empty()
            &&& published.root == crate::db::spec_db_root(published.rows)
            &&& step.root == published.root
        }),
{
    lemma_merge_paths_distinct(cfg, oe, ne);
    let step = spec_merge_step(cfg, s, oe, ne, delta, height);
    let final_p = spec_data_db_path(cfg, ne);
    assert(step.state.disk[final_p] == spec_merge_db1(cfg, s, oe, ne, delta, height));
    if oe != spec_null_hash() {
        let temp = crate::manager::spec_merge_temp_path(cfg, oe, ne);
        let w = spec_open_data_write(
            cfg,
            SdmState { disk: s.disk.insert(temp, s.disk[spec_data_db_path(cfg, oe)]), ..s },
            temp,
            false,
            height,
            None,
            ne,
        );
        assert(w.state.disk[temp].rows == s.disk[spec_data_db_path(cfg, oe)].rows);
    }
}

/// And conversely: after a destroy of an epoch with no open handles, the
/// lookup finds nothing.
pub proof fn lemma_destroyed_not_retrievable(
    cfg: SdmConfig,
    s: SdmState,
    e: Seq<u8>,
    try_open: bool,
    open_mpt: bool,
)
    requires
        cfg_inv(cfg),
        e.len() == 32,
        e != spec_null_hash(),
        !s.registry.dom().contains(spec_data_db_path(cfg, e)),
        !s.mpt_registry.dom().contains(spec_mpt_db_path(cfg, e)),
    ensures
        spec_destroy_step(cfg, s, e).fail is None,
        spec_get_snapshot_ro(
            cfg,
            spec_destroy_step(cfg, s, e).state,
            e,
            try_open,
            open_mpt,
        ).outcome is Absent,
{
    lemma_merge_paths_distinct(cfg, e, e);
    let post = spec_destroy_step(cfg, s, e).state;
    assert(!post.disk.dom().contains(spec_data_db_path(cfg, e)));
}

/// At most one writer per path: installing an exclusive writer on a path
/// that has any registry entry — another writer or live readers — is
/// refused with `SnapshotAlreadyExists`, and nothing changes.
pub proof fn lemma_single_writer(
    cfg: SdmConfig,
    s: SdmState,
    path: Seq<char>,
    create: bool,
    height: u64,
    mpt_path: Option<Seq<char>>,
    epoch: Seq<u8>,
)
    requires
        s.registry.dom().contains(path),
    ensures
        spec_open_data_write(cfg, s, path, create, height, mpt_path, epoch).fail == Some(
            Error::SnapshotAlreadyExists,
        ),
        spec_open_data_write(cfg, s, path, create, height, mpt_path, epoch).state == s,
{
}

/// Outstanding opens never exceed the bound: the permit accounting of the
/// state invariant caps each registry at `max_open_snapshots`.
pub proof fn lemma_bounded_opens(cfg: SdmConfig, s: SdmState)
    requires
        st_inv(cfg, s),
    ensures
        s.registry.dom().len() <= cfg.max_open,
        s.mpt_registry.dom().len() <= cfg.max_open,
{
}

/// No staging directory is reachable by epoch-id lookup: the canonical
/// name of an epoch differs from every merge and full-sync staging name
/// and from the `latest` MPT name, so the rename onto the canonical path
/// is the sole publication step.
pub proof fn lemma_lookup_never_sees_staging(e: Seq<u8>, a: Seq<u8>, b: Seq<u8>)
    requires
        e.len() == 32,
        a.len() == 32,
        b.len() == 32,
    ensures
        spec_snapshot_db_name(e) != spec_merge_temp_db_name(a, b),
        spec_snapshot_db_name(e) != spec_merge_temp_mpt_db_name(a),
        spec_snapshot_db_name(e) != spec_full_sync_temp_db_name(a, b),
{
    crate::names::lemma_temp_names_not_canonical(e, a, b);
}

/// Destroying twice is destroying once: the second call finds the flag
/// already set or the directories already gone, and changes nothing more.
pub proof fn lemma_destroy_idempotent(cfg: SdmConfig, s: SdmState, e: Seq<u8>)
    requires
        cfg_inv(cfg),
        e.len() == 32,
    ensures
        spec_destroy_step(cfg, spec_destroy_step(cfg, s, e).state, e).state == spec_destroy_step(
            cfg,
            s,
            e,
        ).state,
{
    lemma_merge_paths_distinct(cfg, e, e);
    let dp = spec_data_db_path(cfg, e);
    let mp = spec_mpt_db_path(cfg, e);
    let step1 = spec_destroy_step(cfg, s, e);
    let step2 = spec_destroy_step(cfg, step1.state, e);
    if step1.fail is Some {
    } else {
        let s1 = step1.state;
        assert(spec_destroy_fail_data(s1, dp) is None);
        assert(spec_destroy_fail_mpt(s1, mp) is None);
        let t1 = spec_destroy_data(s1, dp, e == spec_null_hash());
        let t2 = spec_destroy_mpt(t1, mp, e == spec_null_hash());
        assert(t1.registry =~= s1.registry);
        assert(t1.disk =~= s1.disk);
        assert(t2.mpt_registry =~= s1.mpt_registry);
        assert(t2.disk =~= s1.disk);
        assert(step2.state == step1.state);
    }
}

/// Recovering twice from the same checkpoint is recovering once.
pub proof fn lemma_recovery_idempotent(cfg: SdmConfig, s: SdmState, e: Seq<u8>)
    requires
        cfg_inv(cfg),
        e.len() == 32,
    ensures
        spec_recovery_step(cfg, spec_recovery_step(cfg, s, e).state, e).state
            == spec_recovery_step(cfg, s, e).state,
{
    lemma_merge_paths_distinct(cfg, e, e);
    let latest = spec_latest_mpt_path(cfg);
    let src = spec_mpt_db_path(cfg, e);
    let tmp2 = spec_merge_temp_mpt_path(cfg, e);
    let step1 = spec_recovery_step(cfg, s, e);
    let step2 = spec_recovery_step(cfg, step1.state, e);
    if step1.fail is Some {
    } else {
        let s1 = step1.state;
        if s.disk.dom().contains(src) {
            assert(s1.disk.dom().contains(src));
            assert(s1.disk[src] == s.disk[src]);
            assert(step2.state.disk =~= s1.disk);
        } else {
            assert(!s1.disk.dom().contains(src));
            assert(step2.state.disk =~= s1.disk);
        }
        assert(step2.state == step1.state);
    }
}

/// Attaching to a live shared open touches neither the disk nor any
/// permit: with parallel readers of one path, only the first open reaches
/// the disk; the rest share its handle.
pub proof fn lemma_attach_shares_the_open(
    cfg: SdmConfig,
    s: SdmState,
    e: Seq<u8>,
    try_open: bool,
    open_mpt: bool,
)
    requires
        e.len() == 32,
        e != spec_null_hash(),
        data_attached(s.registry, spec_data_db_path(cfg, e)),
        (match s.registry[spec_data_db_path(cfg, e)] {
            DataOpenState::SharedReaders { owners, .. } => owners < u64::MAX,
            DataOpenState::ExclusiveWriter => false,
        }),
    ensures
        ({
            let r = spec_get_snapshot_ro(cfg, s, e, try_open, open_mpt);
            &&& r.outcome is Handle
            &&& r.state.disk == s.disk
            &&& r.state.data_free == s.data_free
            &&& r.state.mpt_free == s.mpt_free
            &&& r.state.latest_free == s.latest_free
            &&& r.state.mpt_registry == s.mpt_registry
        }),
{
}

/// A non-blocking open at the permit bound fails with the distinguished
/// try-acquire error and has no side effect.
pub proof fn lemma_nonblocking_open_no_side_effects(
    cfg: SdmConfig,
    s: SdmState,
    e: Seq<u8>,
    open_mpt: bool,
)
    requires
        e.len() == 32,
        e != spec_null_hash(),
        !s.registry.dom().contains(spec_data_db_path(cfg, e)),
        s.disk.dom().contains(spec_data_db_path(cfg, e)),
        s.data_free == 0,
    ensures
        spec_get_snapshot_ro(cfg, s, e, true, open_mpt).outcome == (RoOutcome::Fail {
            err: Error::SemaphoreTryAcquire,
        }),
        spec_get_snapshot_ro(cfg, s, e, true, open_mpt).state == s,
{
}

/// Dropping the last owner and letting the close callback run removes the
/// registry key and returns exactly one permit; the directory goes when
/// the snapshot was flagged for removal.
pub proof fn lemma_last_drop_closes(s: SdmState, path: Seq<char>)
    requires
        data_attached(s.registry, path),
        (match s.registry[path] {
            DataOpenState::SharedReaders { owners, .. } => owners == 1,
            DataOpenState::ExclusiveWriter => false,
        }),
    ensures
        ({
            let s2 = spec_on_close_state(spec_release_state(s, false, path, None), path);
            &&& !s2.registry.dom().contains(path)
            &&& s2.data_free == s.data_free + 1
            &&& s2.disk == (match s.registry[path] {
                DataOpenState::SharedReaders { remove_on_close, .. } => if remove_on_close {
                    s.disk.remove(path)
                } else {
                    s.disk
                },
                DataOpenState::ExclusiveWriter => s.disk,
            })
            &&& s2.mpt_registry == s.mpt_registry
            &&& s2.latest_free == s.latest_free
        }),
{
    let s1 = spec_release_state(s, false, path, None);
    assert(s1.registry.remove(path) =~= s.registry.remove(path));
    assert(!s1.registry.remove(path).dom().contains(path));
}

} // verus!
