//! The snapshot database manager.
//!
//! One value of [`SnapshotDbManagerSqlite`] carries the entire state the
//! manager decides over: the two open-state registries (data snapshots and
//! MPT snapshots), the three permit counters, the latest-snapshot pointer,
//! and a directory map standing for the snapshot store on disk.
//!
//! Every operation is total over that state: where the threaded system
//! would park (a blocking permit acquisition, the drain window of a closing
//! database), the operation returns [`Error::WouldBlock`] and changes
//! nothing, and the driver retries after waiting.  Operations either fail
//! with the state unchanged or perform their whole effect.

use vstd::prelude::*;
use vstd::string::*;
use crate::db::{db_inv, spec_empty_db, DbStore, DbView, KvPair, merkle_hash_of_word, rows_view,
    spec_apply_delta, spec_db_root, spec_root_hash};
use crate::epoch::{EpochId, Hash256, MerkleHash, spec_null_hash};
use crate::errors::Error;
use crate::names::{
    full_sync_temp_db_name, join_path, latest_mpt_db_name, lemma_join_same_dir,
    lemma_name_lengths, lemma_name_literals, lemma_path_split, merge_temp_db_name,
    merge_temp_mpt_db_name, parent_dir, snapshot_db_name, spec_base_name,
    spec_full_sync_temp_db_name, spec_full_sync_temp_prefix, spec_has_no_slash, spec_has_slash,
    spec_is_merge_temp_db_name, spec_is_snapshot_db_name, spec_join, spec_latest_mpt_db_name,
    spec_merge_temp_db_name, spec_merge_temp_mpt_db_name, spec_merge_temp_prefix,
    spec_mpt_dir_name, spec_parent_dir, spec_snapshot_db_name,
};
use crate::pathmap::PathMap;
use crate::semaphore::SemaphoreModel;

verus! {

/// What the host can do for directory copies: Linux has reflink copies and
/// XFS defragmentation, macOS has clone copies, everything else falls back
/// to byte-wise copying.
#[derive(Clone, Copy, Debug, PartialEq, Eq, Structural)]
pub enum Platform {
    Linux,
    MacOs,
    Other,
}

impl Platform {
    /// Whether a reflink/clone copy is available at all.
    pub open spec fn spec_cow_supported(self) -> bool {
        self == Platform::Linux || self == Platform::MacOs
    }

    /// Whether background defragmentation applies.
    pub open spec fn spec_defrag_supported(self) -> bool {
        self == Platform::Linux
    }

    /// Whether a reflink/clone copy is available at all.
    pub fn cow_supported(self) -> (r: bool)
        ensures
            r == self.spec_cow_supported(),
    {
        match self {
            Platform::Linux => true,
            Platform::MacOs => true,
            Platform::Other => false,
        }
    }
}

/// Which kind of directory copy a merge will stage its snapshot with.
#[derive(Clone, Copy, Debug, PartialEq, Eq, Structural)]
pub enum CopyType {
    /// A reflink/clone copy sharing extents with the source.
    Cow,
    /// A byte-wise recursive copy.
    Std,
}

/// Open state of one data snapshot path.
///
/// An absent key means closed.  `owners == 0` with the key still present is
/// the *drain window*: the last owner is gone but the close callback
/// ([`SnapshotDbManagerSqlite::on_close`]) has not run yet.
#[derive(Clone, Copy, Debug)]
pub enum DataOpenState {
    /// Open exclusively for write; no reader may attach.
    ExclusiveWriter,
    /// Shared among `owners` read handles; `remove_on_close` marks the
    /// directory for removal when the last owner is gone.
    SharedReaders { owners: u64, remove_on_close: bool },
}

impl View for DataOpenState {
    type V = DataOpenState;

    open spec fn view(&self) -> DataOpenState {
        *self
    }
}

/// Open state of one MPT snapshot path.  `holds_latest_permit` records that
/// this open carries the single `latest`-MPT writer permit and returns it
/// on close.
#[derive(Clone, Copy, Debug)]
pub enum MptOpenState {
    /// Open exclusively for write.
    ExclusiveWriter { holds_latest_permit: bool },
    /// Shared among `owners` read handles.
    SharedReaders { owners: u64, remove_on_close: bool, holds_latest_permit: bool },
}

impl View for MptOpenState {
    type V = MptOpenState;

    open spec fn view(&self) -> MptOpenState {
        *self
    }
}

/// Whether an MPT open state carries the `latest` writer permit.
pub open spec fn mpt_holds_latest(st: MptOpenState) -> bool {
    match st {
        MptOpenState::ExclusiveWriter { holds_latest_permit } => holds_latest_permit,
        MptOpenState::SharedReaders { holds_latest_permit, .. } => holds_latest_permit,
    }
}

/// The record a merge finalizes: the root of the published snapshot.
pub struct SnapshotInfo {
    pub merkle_root: MerkleHash,
}

/// A shared read handle to an open snapshot database.  Handing it back to
/// [`SnapshotDbManagerSqlite::release_snapshot`] plays the part of dropping
/// the last `Arc` clone in the threaded system.
#[derive(Debug, PartialEq, Eq)]
pub struct SnapshotDbHandle {
    /// Key of the open database in the registry; empty for the synthetic
    /// null snapshot.
    pub snapshot_path: String,
    /// Whether this is the synthetic empty snapshot of `NULL_EPOCH`.
    pub is_null: bool,
    /// The root word recorded in the database at open time.
    pub merkle_root_word: u64,
    /// Key of the attached MPT snapshot, when one was opened alongside.
    pub mpt_snapshot_path: Option<String>,
}

impl SnapshotDbHandle {
    /// The attached MPT path, as a sequence.
    pub open spec fn spec_mpt_path(&self) -> Option<Seq<char>> {
        match self.mpt_snapshot_path {
            Some(ref p) => Some(p@),
            None => None,
        }
    }
}

/// An exclusive write handle to a snapshot database under construction.
pub struct SnapshotDbWriteHandle {
    /// Key of the database open for write.
    pub snapshot_path: String,
    /// Key of the MPT database opened for write alongside, if any.
    pub mpt_snapshot_path: Option<String>,
}

impl SnapshotDbWriteHandle {
    /// The MPT writer path, as a sequence.
    pub open spec fn spec_mpt_path(&self) -> Option<Seq<char>> {
        match self.mpt_snapshot_path {
            Some(ref p) => Some(p@),
            None => None,
        }
    }
}

/// The manager's configuration, fixed at construction.
pub ghost struct SdmConfig {
    pub snapshot_dir: Seq<char>,
    pub mpt_dir: Seq<char>,
    pub max_open: nat,
    pub era_epoch_count: u64,
    pub use_isolated_mpt: bool,
    pub isolated_mpt_height: Option<u64>,
    pub force_cow: bool,
    pub platform: Platform,
}

/// The manager's mutable state, abstracted.
pub ghost struct SdmState {
    /// Data snapshot registry: path to open state.
    pub registry: Map<Seq<char>, DataOpenState>,
    /// MPT snapshot registry.
    pub mpt_registry: Map<Seq<char>, MptOpenState>,
    /// The snapshot store: directory path to database content.
    pub disk: Map<Seq<char>, DbView>,
    /// Free data-open permits.
    pub data_free: nat,
    /// Free MPT-open permits.
    pub mpt_free: nat,
    /// Whether the single `latest`-MPT writer permit is free.
    pub latest_free: bool,
    /// Epoch currently backing the `latest` MPT.
    pub latest_id: Seq<u8>,
    /// Its height.
    pub latest_height: u64,
}

/// The canonical data snapshot path of an epoch.
pub open spec fn spec_data_db_path(cfg: SdmConfig, epoch: Seq<u8>) -> Seq<char> {
    spec_join(cfg.snapshot_dir, spec_snapshot_db_name(epoch))
}

/// The per-epoch MPT snapshot path of an epoch.
pub open spec fn spec_mpt_db_path(cfg: SdmConfig, epoch: Seq<u8>) -> Seq<char> {
    spec_join(cfg.mpt_dir, spec_snapshot_db_name(epoch))
}

/// The path of the single writable `latest` MPT.
pub open spec fn spec_latest_mpt_path(cfg: SdmConfig) -> Seq<char> {
    spec_join(cfg.mpt_dir, spec_latest_mpt_db_name())
}

/// The merge staging path.
pub open spec fn spec_merge_temp_path(cfg: SdmConfig, old: Seq<u8>, new: Seq<u8>) -> Seq<char> {
    spec_join(cfg.snapshot_dir, spec_merge_temp_db_name(old, new))
}

/// The merge staging path under the MPT root.
pub open spec fn spec_merge_temp_mpt_path(cfg: SdmConfig, new: Seq<u8>) -> Seq<char> {
    spec_join(cfg.mpt_dir, spec_merge_temp_mpt_db_name(new))
}

/// The full-sync staging path.
pub open spec fn spec_full_sync_temp_path(cfg: SdmConfig, epoch: Seq<u8>, root: Seq<u8>) -> Seq<
    char,
> {
    spec_join(cfg.snapshot_dir, spec_full_sync_temp_db_name(epoch, root))
}

/// The full-sync staging path under the MPT root.
pub open spec fn spec_full_sync_temp_mpt_path(
    cfg: SdmConfig,
    epoch: Seq<u8>,
    root: Seq<u8>,
) -> Seq<char> {
    spec_join(cfg.mpt_dir, spec_full_sync_temp_db_name(epoch, root))
}

/// Whether the MPT table stays inline in the data snapshot at this height.
pub open spec fn spec_mpt_inline(cfg: SdmConfig, height: u64) -> bool {
    if cfg.use_isolated_mpt {
        match cfg.isolated_mpt_height {
            Some(v) => height < v,
            None => false,
        }
    } else {
        true
    }
}

/// Whether a reader of this epoch's MPT must take the `latest` writer
/// permit pessimistically: it reads the `latest` MPT itself and that epoch
/// is not a checkpoint.
pub open spec fn spec_latest_pessimistic(cfg: SdmConfig, s: SdmState, epoch: Seq<u8>) -> bool {
    s.latest_id == epoch && s.latest_height as int % cfg.era_epoch_count as int != 0
}

/// Configuration sanity: a positive checkpoint period, and distinct data
/// and MPT roots.
pub open spec fn cfg_inv(cfg: SdmConfig) -> bool {
    &&& cfg.era_epoch_count > 0
    &&& cfg.snapshot_dir != cfg.mpt_dir
}

/// The state invariant every operation preserves.
///
/// Free permits and registry entries add up to the bound, so open
/// databases never exceed `max_open_snapshots` per pool.  The `latest`
/// writer permit is held by at most one MPT open, and only while the
/// permit counter shows it taken.
pub open spec fn st_inv(cfg: SdmConfig, s: SdmState) -> bool {
    &&& s.registry.dom().finite()
    &&& s.mpt_registry.dom().finite()
    &&& s.disk.dom().finite()
    &&& s.data_free + s.registry.dom().len() == cfg.max_open
    &&& s.mpt_free + s.mpt_registry.dom().len() == cfg.max_open
    &&& forall|k: Seq<char>|
        s.mpt_registry.dom().contains(k) && mpt_holds_latest(#[trigger] s.mpt_registry[k])
            ==> !s.latest_free
    &&& forall|k1: Seq<char>, k2: Seq<char>|
        s.mpt_registry.dom().contains(k1) && mpt_holds_latest(#[trigger] s.mpt_registry[k1])
            && s.mpt_registry.dom().contains(k2) && mpt_holds_latest(
            #[trigger] s.mpt_registry[k2],
        ) ==> k1 == k2
    &&& forall|k: Seq<char>| #[trigger] s.disk.dom().contains(k) ==> db_inv(s.disk[k])
    &&& s.latest_id.len() == 32
}

/// The snapshot database manager: registries, permits, the latest-snapshot
/// pointer, and the modelled snapshot store.
pub struct SnapshotDbManagerSqlite {
    snapshot_path: String,
    mpt_snapshot_path: String,
    force_cow: bool,
    platform: Platform,
    already_open_snapshots: PathMap<DataOpenState>,
    open_snapshot_semaphore: SemaphoreModel,
    mpt_already_open_snapshots: PathMap<MptOpenState>,
    mpt_open_snapshot_semaphore: SemaphoreModel,
    latest_mpt_snapshot_semaphore: SemaphoreModel,
    use_isolated_db_for_mpt_table: bool,
    use_isolated_db_for_mpt_table_height: Option<u64>,
    era_epoch_count: u64,
    max_open_snapshots: u16,
    latest_snapshot_id: EpochId,
    latest_snapshot_height: u64,
    disk: PathMap<DbStore>,
}

impl SnapshotDbManagerSqlite {
    /// The fixed configuration.
    pub closed spec fn cfg(&self) -> SdmConfig {
        SdmConfig {
            snapshot_dir: self.snapshot_path@,
            mpt_dir: self.mpt_snapshot_path@,
            max_open: self.max_open_snapshots as nat,
            era_epoch_count: self.era_epoch_count,
            use_isolated_mpt: self.use_isolated_db_for_mpt_table,
            isolated_mpt_height: self.use_isolated_db_for_mpt_table_height,
            force_cow: self.force_cow,
            platform: self.platform,
        }
    }

    /// The abstract state.
    pub closed spec fn st(&self) -> SdmState {
        SdmState {
            registry: self.already_open_snapshots@,
            mpt_registry: self.mpt_already_open_snapshots@,
            disk: self.disk@,
            data_free: self.open_snapshot_semaphore.free(),
            mpt_free: self.mpt_open_snapshot_semaphore.free(),
            latest_free: self.latest_mpt_snapshot_semaphore.free() > 0,
            latest_id: self.latest_snapshot_id@,
            latest_height: self.latest_snapshot_height,
        }
    }

    /// Internal representation invariants of the containers and counters.
    pub closed spec fn boxes_ok(&self) -> bool {
        &&& self.already_open_snapshots.inv()
        &&& self.mpt_already_open_snapshots.inv()
        &&& self.disk.inv()
        &&& self.open_snapshot_semaphore.wf()
        &&& self.mpt_open_snapshot_semaphore.wf()
        &&& self.latest_mpt_snapshot_semaphore.wf()
        &&& self.open_snapshot_semaphore.cap() == self.max_open_snapshots as nat
        &&& self.mpt_open_snapshot_semaphore.cap() == self.max_open_snapshots as nat
        &&& self.latest_mpt_snapshot_semaphore.cap() == 1
        &&& self.latest_snapshot_id.wf()
    }

    /// The manager is well formed.
    pub open spec fn wf(&self) -> bool {
        &&& cfg_inv(self.cfg())
        &&& st_inv(self.cfg(), self.st())
        &&& self.boxes_ok()
    }

    /// Create a manager over a snapshot root.
    ///
    /// The MPT root becomes the sibling directory `mpt_snapshot` of the
    /// snapshot root, and the `latest` MPT database is created empty.  The
    /// snapshot root must have a parent directory and must not itself be
    /// named `mpt_snapshot` (the two roots would coincide).
    pub fn new(
        snapshot_path: String,
        max_open_snapshots: u16,
        use_isolated_db_for_mpt_table: bool,
        use_isolated_db_for_mpt_table_height: Option<u64>,
        era_epoch_count: u64,
        platform: Platform,
        force_cow: bool,
    ) -> (r: Result<SnapshotDbManagerSqlite, Error>)
        requires
            era_epoch_count > 0,
            spec_has_slash(snapshot_path@),
            spec_base_name(snapshot_path@) != spec_mpt_dir_name(),
        ensures
            r is Ok,
            ({
                let m = r->Ok_0;
                &&& m.wf()
                &&& m.cfg() == (SdmConfig {
                    snapshot_dir: snapshot_path@,
                    mpt_dir: spec_join(spec_parent_dir(snapshot_path@), spec_mpt_dir_name()),
                    max_open: max_open_snapshots as nat,
                    era_epoch_count,
                    use_isolated_mpt: use_isolated_db_for_mpt_table,
                    isolated_mpt_height: use_isolated_db_for_mpt_table_height,
                    force_cow,
                    platform,
                })
                &&& m.st() == (SdmState {
                    registry: Map::empty(),
                    mpt_registry: Map::empty(),
                    disk: Map::<Seq<char>, DbView>::empty().insert(
                        spec_latest_mpt_path(m.cfg()),
                        spec_empty_db(false),
                    ),
                    data_free: max_open_snapshots as nat,
                    mpt_free: max_open_snapshots as nat,
                    latest_free: true,
                    latest_id: spec_null_hash(),
                    latest_height: 0,
                })
            }),
    {
        proof {
            reveal_strlit("mpt_snapshot");
            lemma_path_split(snapshot_path@);
        }
        let parent = match parent_dir(snapshot_path.as_str()) {
            Some(p) => p,
            None => {
                proof {
                    assert(false);
                }
                String::new()
            },
        };
        let mpt_snapshot_path = join_path(parent.as_str(), "mpt_snapshot");
        proof {
            if snapshot_path@ == mpt_snapshot_path@ {
                lemma_join_same_dir(spec_parent_dir(snapshot_path@), spec_base_name(snapshot_path@),
                    spec_mpt_dir_name());
                assert(false);
            }
        }
        let latest_name = latest_mpt_db_name();
        let latest_path = join_path(mpt_snapshot_path.as_str(), latest_name.as_str());
        let mut disk: PathMap<DbStore> = PathMap::new();
        disk.insert(latest_path, DbStore::empty(false));
        let manager = SnapshotDbManagerSqlite {
            snapshot_path,
            mpt_snapshot_path,
            force_cow,
            platform,
            already_open_snapshots: PathMap::new(),
            open_snapshot_semaphore: SemaphoreModel::new(max_open_snapshots as u64),
            mpt_already_open_snapshots: PathMap::new(),
            mpt_open_snapshot_semaphore: SemaphoreModel::new(max_open_snapshots as u64),
            latest_mpt_snapshot_semaphore: SemaphoreModel::new(1),
            use_isolated_db_for_mpt_table,
            use_isolated_db_for_mpt_table_height,
            era_epoch_count,
            max_open_snapshots,
            latest_snapshot_id: Hash256::null_epoch(),
            latest_snapshot_height: 0,
            disk,
        };
        proof {
            let cfg = manager.cfg();
            let s = manager.st();
            assert(s.registry.dom() =~= Set::<Seq<char>>::empty());
            assert(s.mpt_registry.dom() =~= Set::<Seq<char>>::empty());
            assert(s.registry.dom().len() == 0);
            assert(s.mpt_registry.dom().len() == 0);
            assert(s.disk.dom() =~= Set::<Seq<char>>::empty().insert(spec_latest_mpt_path(cfg)));
            assert(s.disk.dom().finite());
        }
        Ok(manager)
    }

    /// Record which epoch backs the `latest` MPT.
    pub fn update_latest_snapshot_id(&mut self, snapshot_id: EpochId, height: u64)
        requires
            old(self).wf(),
            snapshot_id.wf(),
        ensures
            final(self).wf(),
            final(self).cfg() == old(self).cfg(),
            final(self).st() == (SdmState {
                latest_id: snapshot_id@,
                latest_height: height,
                ..old(self).st()
            }),
    {
        self.latest_snapshot_id = snapshot_id;
        self.latest_snapshot_height = height;
    }

    /// The snapshot root directory.
    pub fn get_snapshot_dir(&self) -> (r: &String)
        ensures
            r@ == self.cfg().snapshot_dir,
    {
        &self.snapshot_path
    }

    /// The MPT root directory.
    pub fn get_mpt_snapshot_dir(&self) -> (r: &String)
        ensures
            r@ == self.cfg().mpt_dir,
    {
        &self.mpt_snapshot_path
    }

    /// The directory name of the `latest` MPT database.
    pub fn get_latest_mpt_snapshot_db_name(&self) -> (r: String)
        ensures
            r@ == spec_latest_mpt_db_name(),
    {
        latest_mpt_db_name()
    }

    /// The canonical directory name of an epoch's snapshot.
    pub fn get_snapshot_db_name(&self, snapshot_epoch_id: &EpochId) -> (r: String)
        ensures
            r@ == spec_snapshot_db_name(snapshot_epoch_id@),
    {
        snapshot_db_name(snapshot_epoch_id)
    }

    /// The canonical path of an epoch's data snapshot.
    pub fn get_snapshot_db_path(&self, snapshot_epoch_id: &EpochId) -> (r: String)
        ensures
            r@ == spec_data_db_path(self.cfg(), snapshot_epoch_id@),
    {
        let name = snapshot_db_name(snapshot_epoch_id);
        join_path(self.snapshot_path.as_str(), name.as_str())
    }

    /// The per-epoch MPT snapshot path.
    pub fn get_mpt_snapshot_db_path(&self, snapshot_epoch_id: &EpochId) -> (r: String)
        ensures
            r@ == spec_mpt_db_path(self.cfg(), snapshot_epoch_id@),
    {
        let name = snapshot_db_name(snapshot_epoch_id);
        join_path(self.mpt_snapshot_path.as_str(), name.as_str())
    }

    /// The path of the writable `latest` MPT.
    pub fn get_latest_mpt_snapshot_db_path(&self) -> (r: String)
        ensures
            r@ == spec_latest_mpt_path(self.cfg()),
    {
        let name = latest_mpt_db_name();
        join_path(self.mpt_snapshot_path.as_str(), name.as_str())
    }

    /// The staging path of a merge.
    pub fn get_merge_temp_snapshot_db_path(
        &self,
        old_snapshot_epoch_id: &EpochId,
        new_snapshot_epoch_id: &EpochId,
    ) -> (r: String)
        ensures
            r@ == spec_merge_temp_path(self.cfg(), old_snapshot_epoch_id@, new_snapshot_epoch_id@),
    {
        let name = merge_temp_db_name(old_snapshot_epoch_id, new_snapshot_epoch_id);
        join_path(self.snapshot_path.as_str(), name.as_str())
    }

    /// The staging path of a merge, under the MPT root.
    pub fn get_merge_temp_mpt_snapshot_db_path(&self, new_snapshot_epoch_id: &EpochId) -> (r:
        String)
        ensures
            r@ == spec_merge_temp_mpt_path(self.cfg(), new_snapshot_epoch_id@),
    {
        let name = merge_temp_mpt_db_name(new_snapshot_epoch_id);
        join_path(self.mpt_snapshot_path.as_str(), name.as_str())
    }

    /// The staging path of a full-sync import.
    pub fn get_full_sync_temp_snapshot_db_path(
        &self,
        snapshot_epoch_id: &EpochId,
        merkle_root: &MerkleHash,
    ) -> (r: String)
        ensures
            r@ == spec_full_sync_temp_path(self.cfg(), snapshot_epoch_id@, merkle_root@),
    {
        let name = full_sync_temp_db_name(snapshot_epoch_id, merkle_root);
        join_path(self.snapshot_path.as_str(), name.as_str())
    }

    /// The staging path of a full-sync import, under the MPT root.
    pub fn get_full_sync_temp_mpt_snapshot_db_path(
        &self,
        snapshot_epoch_id: &EpochId,
        merkle_root: &MerkleHash,
    ) -> (r: String)
        ensures
            r@ == spec_full_sync_temp_mpt_path(self.cfg(), snapshot_epoch_id@, merkle_root@),
    {
        let name = full_sync_temp_db_name(snapshot_epoch_id, merkle_root);
        join_path(self.mpt_snapshot_path.as_str(), name.as_str())
    }

    /// Read an epoch identifier back out of a canonical directory name.
    pub fn get_epoch_id_from_snapshot_db_name(&self, snapshot_db_name: &str) -> (r: Result<
        EpochId,
        Error,
    >)
        ensures
            r is Ok <==> spec_is_snapshot_db_name(snapshot_db_name@),
            r is Ok ==> r->Ok_0.wf() && r->Ok_0@ == crate::hexchars::bytes_of_hex(
                snapshot_db_name@.subrange(7, 71),
            ),
    {
        crate::names::get_epoch_id_from_snapshot_db_name(snapshot_db_name)
    }

    /// Whether a directory name is a merge staging name.
    pub fn is_temp_snapshot_db_path(&self, dir_name: &str) -> (r: bool)
        ensures
            r == spec_is_merge_temp_db_name(dir_name@),
    {
        crate::names::is_temp_snapshot_db_path(dir_name)
    }

    /// Whether the MPT table stays inline at this height.
    pub fn is_mpt_table_in_current_db_for_epoch(&self, epoch_height: u64) -> (r: bool)
        ensures
            r == spec_mpt_inline(self.cfg(), epoch_height),
    {
        if self.use_isolated_db_for_mpt_table {
            match self.use_isolated_db_for_mpt_table_height {
                Some(v) => epoch_height < v,
                None => false,
            }
        } else {
            true
        }
    }

    /// Give up one ownership share of a shared read handle.
    ///
    /// The registry key stays present; when this was the last owner the
    /// entry enters the drain window (owner count zero) until
    /// [`Self::on_close`] — the destructor completing — removes it.  A
    /// concurrent opener observing the drain window waits and retries.
    /// The MPT ownership share travels with the handle that opened the
    /// MPT database alongside; handles attached later carry none.
    pub fn release_snapshot(&mut self, handle: SnapshotDbHandle)
        requires
            old(self).wf(),
            !handle.is_null ==> data_attached(old(self).st().registry, handle.snapshot_path@),
            !handle.is_null ==> (match handle.spec_mpt_path() {
                Some(mp) => mpt_attached(old(self).st().mpt_registry, mp),
                None => true,
            }),
        ensures
            final(self).wf(),
            final(self).cfg() == old(self).cfg(),
            final(self).st() == spec_release_state(
                old(self).st(),
                handle.is_null,
                handle.snapshot_path@,
                handle.spec_mpt_path(),
            ),
    {
        if handle.is_null {
            return ;
        }
        let path = handle.snapshot_path;
        let entry = match self.already_open_snapshots.get(&path) {
            Some(e) => *e,
            None => {
                proof {
                    assert(false);
                }
                DataOpenState::ExclusiveWriter
            },
        };
        match entry {
            DataOpenState::SharedReaders { owners, remove_on_close } => {
                self.already_open_snapshots.insert(
                    path,
                    DataOpenState::SharedReaders { owners: owners - 1, remove_on_close },
                );
            },
            DataOpenState::ExclusiveWriter => {
                proof {
                    assert(false);
                }
            },
        }
        proof {
            lemma_insert_same_key_dom(old(self).st().registry, handle.snapshot_path@);
        }
        match handle.mpt_snapshot_path {
            Some(mp) => {
                let mentry = match self.mpt_already_open_snapshots.get(&mp) {
                    Some(e) => *e,
                    None => {
                        proof {
                            assert(false);
                        }
                        MptOpenState::ExclusiveWriter { holds_latest_permit: false }
                    },
                };
                match mentry {
                    MptOpenState::SharedReaders { owners, remove_on_close, holds_latest_permit } => {
                        self.mpt_already_open_snapshots.insert(
                            mp,
                            MptOpenState::SharedReaders {
                                owners: owners - 1,
                                remove_on_close,
                                holds_latest_permit,
                            },
                        );
                    },
                    MptOpenState::ExclusiveWriter { .. } => {
                        proof {
                            assert(false);
                        }
                    },
                }
                proof {
                    lemma_insert_same_key_dom_mpt(
                        old(self).st().mpt_registry,
                        handle.spec_mpt_path()->0,
                    );
                }
            },
            None => {},
        }
    }

    /// The close callback of a data snapshot database: what the destructor
    /// of the last dropped owner performs.  Removes the registry key,
    /// returns one open permit, and removes the directory when the snapshot
    /// was flagged for removal on close.
    pub fn on_close(&mut self, snapshot_path: &String)
        requires
            old(self).wf(),
            old(self).st().registry.dom().contains(snapshot_path@),
            data_drained(old(self).st().registry[snapshot_path@]),
        ensures
            final(self).wf(),
            final(self).cfg() == old(self).cfg(),
            final(self).st() == spec_on_close_state(old(self).st(), snapshot_path@),
    {
        let entry = match self.already_open_snapshots.get(snapshot_path) {
            Some(e) => *e,
            None => {
                proof {
                    assert(false);
                }
                DataOpenState::ExclusiveWriter
            },
        };
        let remove_on_close = match entry {
            DataOpenState::SharedReaders { remove_on_close, .. } => remove_on_close,
            DataOpenState::ExclusiveWriter => false,
        };
        if remove_on_close {
            self.disk.remove(snapshot_path);
        }
        self.already_open_snapshots.remove(snapshot_path);
        proof {
            lemma_nonempty_dom(old(self).st().registry, snapshot_path@);
        }
        self.open_snapshot_semaphore.add_permit();
    }

    /// The close callback of an MPT snapshot database.  Additionally
    /// returns the `latest`-MPT writer permit when this open carried it.
    pub fn on_close_mpt_snapshot(&mut self, snapshot_path: &String)
        requires
            old(self).wf(),
            old(self).st().mpt_registry.dom().contains(snapshot_path@),
            mpt_drained(old(self).st().mpt_registry[snapshot_path@]),
        ensures
            final(self).wf(),
            final(self).cfg() == old(self).cfg(),
            final(self).st() == spec_on_close_mpt_state(old(self).st(), snapshot_path@),
    {
        let entry = match self.mpt_already_open_snapshots.get(snapshot_path) {
            Some(e) => *e,
            None => {
                proof {
                    assert(false);
                }
                MptOpenState::ExclusiveWriter { holds_latest_permit: false }
            },
        };
        let (remove_on_close, holds_latest) = match entry {
            MptOpenState::SharedReaders { remove_on_close, holds_latest_permit, .. } => (
                remove_on_close,
                holds_latest_permit,
            ),
            MptOpenState::ExclusiveWriter { holds_latest_permit } => (false, holds_latest_permit),
        };
        if remove_on_close {
            self.disk.remove(snapshot_path);
        }
        self.mpt_already_open_snapshots.remove(snapshot_path);
        proof {
            lemma_nonempty_dom_mpt(old(self).st().mpt_registry, snapshot_path@);
        }
        self.mpt_open_snapshot_semaphore.add_permit();
        if holds_latest {
            self.latest_mpt_snapshot_semaphore.add_permit();
        }
    }

    /// Close an exclusive write handle: remove the registry keys and return
    /// the permits, including the `latest` writer permit of an MPT writer.
    pub fn close_write_handle(&mut self, handle: SnapshotDbWriteHandle)
        requires
            old(self).wf(),
            old(self).st().registry.dom().contains(handle.snapshot_path@),
            old(self).st().registry[handle.snapshot_path@] is ExclusiveWriter,
            (match handle.spec_mpt_path() {
                Some(mp) => old(self).st().mpt_registry.dom().contains(mp)
                    && old(self).st().mpt_registry[mp] is ExclusiveWriter,
                None => true,
            }),
        ensures
            final(self).wf(),
            final(self).cfg() == old(self).cfg(),
            final(self).st() == spec_close_writer_state(
                old(self).st(),
                handle.snapshot_path@,
                handle.spec_mpt_path(),
            ),
    {
        self.already_open_snapshots.remove(&handle.snapshot_path);
        proof {
            lemma_nonempty_dom(old(self).st().registry, handle.snapshot_path@);
        }
        self.open_snapshot_semaphore.add_permit();
        match handle.mpt_snapshot_path {
            Some(mp) => {
                let mentry = match self.mpt_already_open_snapshots.get(&mp) {
                    Some(e) => *e,
                    None => {
                        proof {
                            assert(false);
                        }
                        MptOpenState::ExclusiveWriter { holds_latest_permit: false }
                    },
                };
                let holds_latest = match mentry {
                    MptOpenState::ExclusiveWriter { holds_latest_permit } => holds_latest_permit,
                    MptOpenState::SharedReaders { holds_latest_permit, .. } => holds_latest_permit,
                };
                self.mpt_already_open_snapshots.remove(&mp);
                proof {
                    lemma_nonempty_dom_mpt(old(self).st().mpt_registry, mp@);
                }
                self.mpt_open_snapshot_semaphore.add_permit();
                if holds_latest {
                    self.latest_mpt_snapshot_semaphore.add_permit();
                }
            },
            None => {},
        }
    }
}

/// A shared data entry with at least one owner and room for one more.
pub open spec fn data_attached(reg: Map<Seq<char>, DataOpenState>, path: Seq<char>) -> bool {
    &&& reg.dom().contains(path)
    &&& (match reg[path] {
        DataOpenState::SharedReaders { owners, .. } => owners >= 1,
        DataOpenState::ExclusiveWriter => false,
    })
}

/// A shared MPT entry with at least one owner.
pub open spec fn mpt_attached(reg: Map<Seq<char>, MptOpenState>, path: Seq<char>) -> bool {
    &&& reg.dom().contains(path)
    &&& (match reg[path] {
        MptOpenState::SharedReaders { owners, .. } => owners >= 1,
        MptOpenState::ExclusiveWriter { .. } => false,
    })
}

/// A shared data entry inside the drain window: owners gone, key present.
pub open spec fn data_drained(st: DataOpenState) -> bool {
    match st {
        DataOpenState::SharedReaders { owners, .. } => owners == 0,
        DataOpenState::ExclusiveWriter => false,
    }
}

/// A shared MPT entry inside the drain window.
pub open spec fn mpt_drained(st: MptOpenState) -> bool {
    match st {
        MptOpenState::SharedReaders { owners, .. } => owners == 0,
        MptOpenState::ExclusiveWriter { .. } => false,
    }
}

/// Effect of giving up one data ownership share.
pub open spec fn spec_release_data(s: SdmState, path: Seq<char>) -> SdmState {
    match s.registry[path] {
        DataOpenState::SharedReaders { owners, remove_on_close } => SdmState {
            registry: s.registry.insert(
                path,
                DataOpenState::SharedReaders { owners: (owners - 1) as u64, remove_on_close },
            ),
            ..s
        },
        DataOpenState::ExclusiveWriter => s,
    }
}

/// Effect of giving up one MPT ownership share.
pub open spec fn spec_release_mpt(s: SdmState, path: Seq<char>) -> SdmState {
    match s.mpt_registry[path] {
        MptOpenState::SharedReaders { owners, remove_on_close, holds_latest_permit } => SdmState {
            mpt_registry: s.mpt_registry.insert(
                path,
                MptOpenState::SharedReaders {
                    owners: (owners - 1) as u64,
                    remove_on_close,
                    holds_latest_permit,
                },
            ),
            ..s
        },
        MptOpenState::ExclusiveWriter { .. } => s,
    }
}

/// Effect of releasing a read handle: one share on the data side, one on
/// the attached MPT side.  The synthetic null handle touches nothing.
pub open spec fn spec_release_state(
    s: SdmState,
    is_null: bool,
    path: Seq<char>,
    mpt: Option<Seq<char>>,
) -> SdmState {
    if is_null {
        s
    } else {
        let s1 = spec_release_data(s, path);
        match mpt {
            Some(mp) => spec_release_mpt(s1, mp),
            None => s1,
        }
    }
}

/// Effect of the data close callback: key out, permit back, directory
/// removed when flagged.
pub open spec fn spec_on_close_state(s: SdmState, path: Seq<char>) -> SdmState {
    let remove = match s.registry[path] {
        DataOpenState::SharedReaders { remove_on_close, .. } => remove_on_close,
        DataOpenState::ExclusiveWriter => false,
    };
    SdmState {
        registry: s.registry.remove(path),
        data_free: s.data_free + 1,
        disk: if remove {
            s.disk.remove(path)
        } else {
            s.disk
        },
        ..s
    }
}

/// Effect of the MPT close callback; also returns the `latest` writer
/// permit when the open carried it.
pub open spec fn spec_on_close_mpt_state(s: SdmState, path: Seq<char>) -> SdmState {
    let entry = s.mpt_registry[path];
    let remove = match entry {
        MptOpenState::SharedReaders { remove_on_close, .. } => remove_on_close,
        MptOpenState::ExclusiveWriter { .. } => false,
    };
    SdmState {
        mpt_registry: s.mpt_registry.remove(path),
        mpt_free: s.mpt_free + 1,
        latest_free: s.latest_free || mpt_holds_latest(entry),
        disk: if remove {
            s.disk.remove(path)
        } else {
            s.disk
        },
        ..s
    }
}

/// Effect of closing an exclusive write handle.
pub open spec fn spec_close_writer_state(
    s: SdmState,
    path: Seq<char>,
    mpt: Option<Seq<char>>,
) -> SdmState {
    let s1 = SdmState { registry: s.registry.remove(path), data_free: s.data_free + 1, ..s };
    match mpt {
        Some(mp) => SdmState {
            mpt_registry: s1.mpt_registry.remove(mp),
            mpt_free: s1.mpt_free + 1,
            latest_free: s1.latest_free || mpt_holds_latest(s.mpt_registry[mp]),
            ..s1
        },
        None => s1,
    }
}

/// What opening a snapshot for shared read decided.
pub ghost enum RoOutcome {
    /// A handle is returned.
    Handle { is_null: bool, path: Seq<char>, root: u64, mpt: Option<Seq<char>> },
    /// No snapshot to hand out: the directory is absent, or the path is
    /// open for exclusive write.
    Absent,
    /// Refused; the state is unchanged.
    Fail { err: Error },
}

/// State and outcome of a shared open.
pub ghost struct RoStep {
    pub state: SdmState,
    pub outcome: RoOutcome,
}

/// State and outcome of attaching the MPT side of a shared open.
pub ghost struct MptAttachStep {
    pub state: SdmState,
    pub attached: Option<Seq<char>>,
    pub fail: Option<Error>,
}

/// The MPT side of a shared open, against the MPT registry at `mp`:
/// attach to a live shared open; skip when the path is held by a writer or
/// absent on disk; otherwise open fresh, taking one MPT permit and — when
/// the epoch reads the non-checkpoint `latest` MPT — the `latest` writer
/// permit, pessimistically.
pub open spec fn spec_attach_mpt_ro(
    cfg: SdmConfig,
    s: SdmState,
    epoch: Seq<u8>,
    mp: Seq<char>,
    try_open: bool,
) -> MptAttachStep {
    if s.mpt_registry.dom().contains(mp) {
        match s.mpt_registry[mp] {
            MptOpenState::ExclusiveWriter { .. } => MptAttachStep {
                state: s,
                attached: None,
                fail: None,
            },
            MptOpenState::SharedReaders { owners, remove_on_close, holds_latest_permit } => {
                if owners == 0 || owners == u64::MAX {
                    MptAttachStep { state: s, attached: None, fail: Some(Error::WouldBlock) }
                } else {
                    MptAttachStep {
                        state: SdmState {
                            mpt_registry: s.mpt_registry.insert(
                                mp,
                                MptOpenState::SharedReaders {
                                    owners: (owners + 1) as u64,
                                    remove_on_close,
                                    holds_latest_permit,
                                },
                            ),
                            ..s
                        },
                        attached: Some(mp),
                        fail: None,
                    }
                }
            },
        }
    } else if !s.disk.dom().contains(mp) {
        MptAttachStep { state: s, attached: None, fail: None }
    } else if s.mpt_free == 0 {
        MptAttachStep {
            state: s,
            attached: None,
            fail: Some(
                if try_open {
                    Error::SemaphoreTryAcquire
                } else {
                    Error::WouldBlock
                },
            ),
        }
    } else if spec_latest_pessimistic(cfg, s, epoch) && !s.latest_free {
        MptAttachStep { state: s, attached: None, fail: Some(Error::LatestMptHeldForWrite) }
    } else {
        let pess = spec_latest_pessimistic(cfg, s, epoch);
        MptAttachStep {
            state: SdmState {
                mpt_registry: s.mpt_registry.insert(
                    mp,
                    MptOpenState::SharedReaders {
                        owners: 1,
                        remove_on_close: false,
                        holds_latest_permit: pess,
                    },
                ),
                mpt_free: (s.mpt_free - 1) as nat,
                latest_free: s.latest_free && !pess,
                ..s
            },
            attached: Some(mp),
            fail: None,
        }
    }
}

/// The whole decision of `get_snapshot_by_epoch_id`.
///
/// `NULL_EPOCH` yields the synthetic empty snapshot.  A live shared open is
/// attached to without touching disk or permits.  A path held by a writer,
/// or absent on disk, yields no handle.  The drain window, and a blocking
/// acquisition with no free permit, suspend (`WouldBlock`); a non-blocking
/// one fails with `SemaphoreTryAcquire` and no side effect.  A fresh open
/// takes one data permit, resolves the isolated MPT database when asked
/// for, and registers a shared entry with one owner.
pub open spec fn spec_get_snapshot_ro(
    cfg: SdmConfig,
    s: SdmState,
    epoch: Seq<u8>,
    try_open: bool,
    open_mpt: bool,
) -> RoStep {
    let path = spec_data_db_path(cfg, epoch);
    if epoch == spec_null_hash() {
        RoStep {
            state: s,
            outcome: RoOutcome::Handle {
                is_null: true,
                path: Seq::empty(),
                root: spec_db_root(Seq::empty()),
                mpt: None,
            },
        }
    } else if s.registry.dom().contains(path) {
        match s.registry[path] {
            DataOpenState::ExclusiveWriter => RoStep { state: s, outcome: RoOutcome::Absent },
            DataOpenState::SharedReaders { owners, remove_on_close } => {
                if owners == 0 || owners == u64::MAX {
                    RoStep { state: s, outcome: RoOutcome::Fail { err: Error::WouldBlock } }
                } else {
                    RoStep {
                        state: SdmState {
                            registry: s.registry.insert(
                                path,
                                DataOpenState::SharedReaders {
                                    owners: (owners + 1) as u64,
                                    remove_on_close,
                                },
                            ),
                            ..s
                        },
                        outcome: RoOutcome::Handle {
                            is_null: false,
                            path,
                            root: if s.disk.dom().contains(path) {
                                s.disk[path].root
                            } else {
                                0
                            },
                            mpt: None,
                        },
                    }
                }
            },
        }
    } else if !s.disk.dom().contains(path) {
        RoStep { state: s, outcome: RoOutcome::Absent }
    } else if s.data_free == 0 {
        RoStep {
            state: s,
            outcome: RoOutcome::Fail {
                err: if try_open {
                    Error::SemaphoreTryAcquire
                } else {
                    Error::WouldBlock
                },
            },
        }
    } else {
        let db = s.disk[path];
        if open_mpt && !db.mpt_inline {
            if !cfg.use_isolated_mpt {
                RoStep { state: s, outcome: RoOutcome::Fail { err: Error::MptTableNotInSnapshot } }
            } else {
                let per = spec_mpt_db_path(cfg, epoch);
                if s.disk.dom().contains(per) || s.latest_id == epoch {
                    let mp = if s.disk.dom().contains(per) {
                        per
                    } else {
                        spec_latest_mpt_path(cfg)
                    };
                    let m = spec_attach_mpt_ro(cfg, s, epoch, mp, try_open);
                    if m.fail is Some {
                        RoStep { state: s, outcome: RoOutcome::Fail { err: m.fail->0 } }
                    } else {
                        RoStep {
                            state: SdmState {
                                registry: m.state.registry.insert(
                                    path,
                                    DataOpenState::SharedReaders {
                                        owners: 1,
                                        remove_on_close: false,
                                    },
                                ),
                                data_free: (m.state.data_free - 1) as nat,
                                ..m.state
                            },
                            outcome: RoOutcome::Handle {
                                is_null: false,
                                path,
                                root: db.root,
                                mpt: m.attached,
                            },
                        }
                    }
                } else {
                    RoStep { state: s, outcome: RoOutcome::Fail { err: Error::MptMissing } }
                }
            }
        } else {
            RoStep {
                state: SdmState {
                    registry: s.registry.insert(
                        path,
                        DataOpenState::SharedReaders { owners: 1, remove_on_close: false },
                    ),
                    data_free: (s.data_free - 1) as nat,
                    ..s
                },
                outcome: RoOutcome::Handle { is_null: false, path, root: db.root, mpt: None },
            }
        }
    }
}

/// Whether the returned value realizes the decided outcome.
pub open spec fn ro_outcome_matches(
    r: Result<Option<SnapshotDbHandle>, Error>,
    o: RoOutcome,
) -> bool {
    match o {
        RoOutcome::Handle { is_null, path, root, mpt } => {
            &&& r is Ok
            &&& r->Ok_0 is Some
            &&& r->Ok_0->0.is_null == is_null
            &&& r->Ok_0->0.snapshot_path@ == path
            &&& r->Ok_0->0.merkle_root_word == root
            &&& r->Ok_0->0.spec_mpt_path() == mpt
        },
        RoOutcome::Absent => r is Ok && r->Ok_0 is None,
        RoOutcome::Fail { err } => r is Err && r->Err_0 == err,
    }
}

/// State and outcome of destroying an epoch's snapshot.
pub ghost struct DestroyStep {
    pub state: SdmState,
    pub fail: Option<Error>,
}

/// Why the data side of a destroy refuses, if it does.
pub open spec fn spec_destroy_fail_data(s: SdmState, path: Seq<char>) -> Option<Error> {
    if s.registry.dom().contains(path) {
        match s.registry[path] {
            DataOpenState::ExclusiveWriter => Some(Error::SnapshotHeldForWrite),
            DataOpenState::SharedReaders { owners, .. } => if owners == 0 {
                Some(Error::WouldBlock)
            } else {
                None
            },
        }
    } else {
        None
    }
}

/// Why the MPT side of a destroy refuses, if it does.
pub open spec fn spec_destroy_fail_mpt(s: SdmState, path: Seq<char>) -> Option<Error> {
    if s.mpt_registry.dom().contains(path) {
        match s.mpt_registry[path] {
            MptOpenState::ExclusiveWriter { .. } => Some(Error::SnapshotHeldForWrite),
            MptOpenState::SharedReaders { owners, .. } => if owners == 0 {
                Some(Error::WouldBlock)
            } else {
                None
            },
        }
    } else {
        None
    }
}

/// The data side of a destroy: flag live readers to remove on close, or
/// remove the directory now when nothing is open.
pub open spec fn spec_destroy_data(s: SdmState, path: Seq<char>, is_null: bool) -> SdmState {
    if s.registry.dom().contains(path) {
        match s.registry[path] {
            DataOpenState::SharedReaders { owners, remove_on_close } => SdmState {
                registry: s.registry.insert(
                    path,
                    DataOpenState::SharedReaders { owners, remove_on_close: true },
                ),
                ..s
            },
            DataOpenState::ExclusiveWriter => s,
        }
    } else if is_null {
        s
    } else {
        SdmState { disk: s.disk.remove(path), ..s }
    }
}

/// The MPT side of a destroy.
pub open spec fn spec_destroy_mpt(s: SdmState, path: Seq<char>, is_null: bool) -> SdmState {
    if s.mpt_registry.dom().contains(path) {
        match s.mpt_registry[path] {
            MptOpenState::SharedReaders { owners, remove_on_close, holds_latest_permit } => SdmState {
                mpt_registry: s.mpt_registry.insert(
                    path,
                    MptOpenState::SharedReaders {
                        owners,
                        remove_on_close: true,
                        holds_latest_permit,
                    },
                ),
                ..s
            },
            MptOpenState::ExclusiveWriter { .. } => s,
        }
    } else if is_null {
        s
    } else {
        SdmState { disk: s.disk.remove(path), ..s }
    }
}

/// The whole decision of `destroy_snapshot`: both sides checked first,
/// then both effects, or one error and no effect.
pub open spec fn spec_destroy_step(cfg: SdmConfig, s: SdmState, epoch: Seq<u8>) -> DestroyStep {
    let dp = spec_data_db_path(cfg, epoch);
    let mp = spec_mpt_db_path(cfg, epoch);
    let is_null = epoch == spec_null_hash();
    if spec_destroy_fail_data(s, dp) is Some {
        DestroyStep { state: s, fail: spec_destroy_fail_data(s, dp) }
    } else if spec_destroy_fail_mpt(s, mp) is Some {
        DestroyStep { state: s, fail: spec_destroy_fail_mpt(s, mp) }
    } else {
        DestroyStep {
            state: spec_destroy_mpt(spec_destroy_data(s, dp, is_null), mp, is_null),
            fail: None,
        }
    }
}

impl SnapshotDbManagerSqlite {
    /// Open a shared reader on an epoch's snapshot.
    ///
    /// `NULL_EPOCH` returns the synthetic empty snapshot.  `try_open`
    /// selects the non-blocking mode: where the blocking mode would suspend
    /// on the open-permit bound it fails with `SemaphoreTryAcquire` and no
    /// side effect.  `open_mpt_snapshot` asks for the isolated MPT database
    /// alongside, when the snapshot does not carry its MPT table inline.
    pub fn get_snapshot_by_epoch_id(
        &mut self,
        snapshot_epoch_id: &EpochId,
        try_open: bool,
        open_mpt_snapshot: bool,
    ) -> (r: Result<Option<SnapshotDbHandle>, Error>)
        requires
            old(self).wf(),
            snapshot_epoch_id.wf(),
        ensures
            final(self).wf(),
            final(self).cfg() == old(self).cfg(),
            final(self).st() == spec_get_snapshot_ro(
                old(self).cfg(),
                old(self).st(),
                snapshot_epoch_id@,
                try_open,
                open_mpt_snapshot,
            ).state,
            ro_outcome_matches(
                r,
                spec_get_snapshot_ro(
                    old(self).cfg(),
                    old(self).st(),
                    snapshot_epoch_id@,
                    try_open,
                    open_mpt_snapshot,
                ).outcome,
            ),
    {
        let ghost cfg = self.cfg();
        let ghost s0 = self.st();
        if snapshot_epoch_id.is_null() {
            return Ok(
                Some(
                    SnapshotDbHandle {
                        snapshot_path: String::new(),
                        is_null: true,
                        merkle_root_word: 0xcbf29ce484222325,
                        mpt_snapshot_path: None,
                    },
                ),
            );
        }
        let path = self.get_snapshot_db_path(snapshot_epoch_id);
        let entry_opt: Option<DataOpenState> = match self.already_open_snapshots.get(&path) {
            Some(e) => Some(*e),
            None => None,
        };
        match entry_opt {
            Some(DataOpenState::ExclusiveWriter) => {
                return Ok(None);
            },
            Some(DataOpenState::SharedReaders { owners, remove_on_close }) => {
                if owners == 0 || owners == u64::MAX {
                    return Err(Error::WouldBlock);
                }
                let root: u64 = match self.disk.get(&path) {
                    Some(db) => db.root_word(),
                    None => 0,
                };
                self.already_open_snapshots.insert(
                    path.clone(),
                    DataOpenState::SharedReaders { owners: owners + 1, remove_on_close },
                );
                proof {
                    lemma_insert_same_key_dom(s0.registry, path@);
                }
                return Ok(
                    Some(
                        SnapshotDbHandle {
                            snapshot_path: path,
                            is_null: false,
                            merkle_root_word: root,
                            mpt_snapshot_path: None,
                        },
                    ),
                );
            },
            None => {},
        }
        if !self.disk.contains_key(&path) {
            return Ok(None);
        }
        if !self.open_snapshot_semaphore.peek_available() {
            return Err(
                if try_open {
                    Error::SemaphoreTryAcquire
                } else {
                    Error::WouldBlock
                },
            );
        }
        let (db_root, db_inline): (u64, bool) = match self.disk.get(&path) {
            Some(db) => (db.root_word(), db.mpt_table_inline()),
            None => (0, true),
        };
        let mut mpt_attach: Option<String> = None;
        if open_mpt_snapshot && !db_inline {
            if !self.use_isolated_db_for_mpt_table {
                return Err(Error::MptTableNotInSnapshot);
            }
            let per = self.get_mpt_snapshot_db_path(snapshot_epoch_id);
            let mp: String;
            if self.disk.contains_key(&per) {
                mp = per;
            } else if self.latest_snapshot_id.same_as(snapshot_epoch_id) {
                mp = self.get_latest_mpt_snapshot_db_path();
            } else {
                return Err(Error::MptMissing);
            }
            let mentry_opt: Option<MptOpenState> = match self.mpt_already_open_snapshots.get(&mp) {
                Some(e) => Some(*e),
                None => None,
            };
            match mentry_opt {
                Some(MptOpenState::ExclusiveWriter { .. }) => {},
                Some(
                    MptOpenState::SharedReaders { owners, remove_on_close, holds_latest_permit },
                ) => {
                    if owners == 0 || owners == u64::MAX {
                        return Err(Error::WouldBlock);
                    }
                    self.mpt_already_open_snapshots.insert(
                        mp.clone(),
                        MptOpenState::SharedReaders {
                            owners: owners + 1,
                            remove_on_close,
                            holds_latest_permit,
                        },
                    );
                    proof {
                        lemma_insert_same_key_dom_mpt(s0.mpt_registry, mp@);
                    }
                    mpt_attach = Some(mp);
                },
                None => {
                    if !self.disk.contains_key(&mp) {
                        // The directory is gone; the snapshot is served
                        // without its MPT side, as an open of a missing
                        // file would be.
                    } else if !self.mpt_open_snapshot_semaphore.peek_available() {
                        return Err(
                            if try_open {
                                Error::SemaphoreTryAcquire
                            } else {
                                Error::WouldBlock
                            },
                        );
                    } else {
                        let pess = self.latest_snapshot_id.same_as(snapshot_epoch_id)
                            && self.latest_snapshot_height % self.era_epoch_count != 0;
                        if pess && !self.latest_mpt_snapshot_semaphore.peek_available() {
                            return Err(Error::LatestMptHeldForWrite);
                        }
                        let got = self.mpt_open_snapshot_semaphore.try_acquire();
                        assert(got);
                        if pess {
                            let got_latest = self.latest_mpt_snapshot_semaphore.try_acquire();
                            assert(got_latest);
                        }
                        self.mpt_already_open_snapshots.insert(
                            mp.clone(),
                            MptOpenState::SharedReaders {
                                owners: 1,
                                remove_on_close: false,
                                holds_latest_permit: pess,
                            },
                        );
                        proof {
                            lemma_insert_fresh_dom_mpt(s0.mpt_registry, mp@);
                        }
                        mpt_attach = Some(mp);
                    }
                },
            }
        }
        let got_data = self.open_snapshot_semaphore.try_acquire();
        assert(got_data);
        self.already_open_snapshots.insert(
            path.clone(),
            DataOpenState::SharedReaders { owners: 1, remove_on_close: false },
        );
        proof {
            lemma_insert_fresh_dom(s0.registry, path@);
        }
        Ok(
            Some(
                SnapshotDbHandle {
                    snapshot_path: path,
                    is_null: false,
                    merkle_root_word: db_root,
                    mpt_snapshot_path: mpt_attach,
                },
            ),
        )
    }

    /// Open (or create) an MPT database for exclusive write.
    fn open_mpt_snapshot_write(
        &mut self,
        snapshot_path: String,
        create: bool,
        new_epoch_height: u64,
        new_snapshot_id: &EpochId,
    ) -> (r: Result<(), Error>)
        requires
            old(self).wf(),
            new_snapshot_id.wf(),
        ensures
            final(self).wf(),
            final(self).cfg() == old(self).cfg(),
            ({
                let w = spec_open_mpt_write(
                    old(self).cfg(),
                    old(self).st(),
                    snapshot_path@,
                    create,
                    new_epoch_height,
                    new_snapshot_id@,
                );
                &&& final(self).st() == w.state
                &&& (match w.fail {
                    Some(e) => r is Err && r->Err_0 == e,
                    None => r is Ok,
                })
            }),
    {
        let ghost s0 = self.st();
        if !self.latest_mpt_snapshot_semaphore.peek_available() {
            return Err(Error::WouldBlock);
        }
        if self.mpt_already_open_snapshots.contains_key(&snapshot_path) {
            return Err(Error::SnapshotAlreadyExists);
        }
        if !self.mpt_open_snapshot_semaphore.peek_available() {
            return Err(Error::WouldBlock);
        }
        if !create && !self.disk.contains_key(&snapshot_path) {
            return Err(Error::SnapshotNotFound);
        }
        let got_latest = self.latest_mpt_snapshot_semaphore.try_acquire();
        assert(got_latest);
        let got_mpt = self.mpt_open_snapshot_semaphore.try_acquire();
        assert(got_mpt);
        if create {
            self.disk.insert(snapshot_path.clone(), DbStore::empty(false));
        }
        self.mpt_already_open_snapshots.insert(
            snapshot_path,
            MptOpenState::ExclusiveWriter { holds_latest_permit: true },
        );
        self.latest_snapshot_id = new_snapshot_id.duplicate();
        self.latest_snapshot_height = new_epoch_height;
        proof {
            lemma_insert_fresh_dom_mpt(s0.mpt_registry, snapshot_path@);
        }
        Ok(())
    }

    /// Open (or create) a data snapshot database for exclusive write,
    /// together with its MPT writer when the MPT table is isolated at this
    /// height.
    fn open_snapshot_write(
        &mut self,
        snapshot_path: String,
        create: bool,
        new_epoch_height: u64,
        mpt_snapshot_path: Option<String>,
        new_snapshot_id: &EpochId,
    ) -> (r: Result<SnapshotDbWriteHandle, Error>)
        requires
            old(self).wf(),
            new_snapshot_id.wf(),
            (mpt_snapshot_path is None && !spec_mpt_inline(old(self).cfg(), new_epoch_height))
                ==> new_epoch_height > old(self).st().latest_height,
        ensures
            final(self).wf(),
            final(self).cfg() == old(self).cfg(),
            ({
                let w = spec_open_data_write(
                    old(self).cfg(),
                    old(self).st(),
                    snapshot_path@,
                    create,
                    new_epoch_height,
                    (match mpt_snapshot_path {
                        Some(ref p) => Some(p@),
                        None => None,
                    }),
                    new_snapshot_id@,
                );
                &&& final(self).st() == w.state
                &&& (match w.fail {
                    Some(e) => r is Err && r->Err_0 == e,
                    None => {
                        &&& r is Ok
                        &&& r->Ok_0.snapshot_path@ == snapshot_path@
                        &&& r->Ok_0.spec_mpt_path() == (if spec_mpt_inline(
                            old(self).cfg(),
                            new_epoch_height,
                        ) {
                            None::<Seq<char>>
                        } else {
                            match mpt_snapshot_path {
                                Some(ref p) => Some(p@),
                                None => Some(spec_latest_mpt_path(old(self).cfg())),
                            }
                        })
                    },
                })
            }),
    {
        let ghost s0 = self.st();
        let ghost mpt_arg_view: Option<Seq<char>> = match mpt_snapshot_path {
            Some(ref p) => Some(p@),
            None => None,
        };
        if self.already_open_snapshots.contains_key(&snapshot_path) {
            return Err(Error::SnapshotAlreadyExists);
        }
        if !self.open_snapshot_semaphore.peek_available() {
            return Err(Error::WouldBlock);
        }
        if !create && !self.disk.contains_key(&snapshot_path) {
            return Err(Error::SnapshotNotFound);
        }
        let inline = self.is_mpt_table_in_current_db_for_epoch(new_epoch_height);
        let mpt_used: Option<String> = if inline {
            None
        } else {
            let (mp, create_mpt): (String, bool) = match mpt_snapshot_path {
                Some(v) => (v, true),
                None => (self.get_latest_mpt_snapshot_db_path(), false),
            };
            match self.open_mpt_snapshot_write(mp.clone(), create_mpt, new_epoch_height,
                new_snapshot_id) {
                Ok(_) => {},
                Err(e) => {
                    return Err(e);
                },
            }
            Some(mp)
        };
        let got_data = self.open_snapshot_semaphore.try_acquire();
        assert(got_data);
        if create {
            self.disk.insert(snapshot_path.clone(), DbStore::empty(inline));
        } else if !inline {
            let db = match self.disk.take(&snapshot_path) {
                Some(d) => d,
                None => {
                    proof {
                        assert(false);
                    }
                    DbStore::empty(inline)
                },
            };
            let mut db = db;
            db.drop_mpt_table();
            self.disk.insert(snapshot_path.clone(), db);
            proof {
                let w = spec_open_data_write(
                    old(self).cfg(),
                    s0,
                    snapshot_path@,
                    create,
                    new_epoch_height,
                    mpt_arg_view,
                    new_snapshot_id@,
                );
                assert(self.disk@ =~= w.state.disk);
            }
        }
        self.already_open_snapshots.insert(
            snapshot_path.clone(),
            DataOpenState::ExclusiveWriter,
        );
        proof {
            lemma_insert_fresh_dom(s0.registry, snapshot_path@);
        }
        Ok(SnapshotDbWriteHandle { snapshot_path, mpt_snapshot_path: mpt_used })
    }

    /// Which copy a snapshot merge will use: the reflink copy on a
    /// platform that has one, the byte-wise fallback otherwise — unless
    /// `force_cow` forbids the fallback, which refuses the merge.  The
    /// copy itself is the driver's filesystem work.
    pub fn try_copy_snapshot(&self) -> (r: Result<CopyType, Error>)
        ensures
            self.cfg().platform.spec_cow_supported() ==> r == Ok::<CopyType, Error>(CopyType::Cow),
            (!self.cfg().platform.spec_cow_supported() && self.cfg().force_cow) ==> r
                == Err::<CopyType, Error>(Error::SnapshotCowCreation),
            (!self.cfg().platform.spec_cow_supported() && !self.cfg().force_cow) ==> r == Ok::<
                CopyType,
                Error,
            >(CopyType::Std),
    {
        if self.platform.cow_supported() {
            Ok(CopyType::Cow)
        } else if self.force_cow {
            Err(Error::SnapshotCowCreation)
        } else {
            Ok(CopyType::Std)
        }
    }

    /// Whether a background defragmentation pass is due on a snapshot the
    /// merge published: a Linux reflink copy was used and the low nibble of
    /// the new epoch selects this epoch (one in sixteen).
    pub fn defragmentation_due(&self, cow_copy_used: bool, new_snapshot_epoch_id: &EpochId) -> (r:
        bool)
        requires
            new_snapshot_epoch_id.wf(),
        ensures
            r == (cow_copy_used && self.cfg().platform.spec_defrag_supported()
                && new_snapshot_epoch_id@[31] & 15 == 0),
    {
        let is_linux = match self.platform {
            Platform::Linux => true,
            _ => false,
        };
        cow_copy_used && is_linux && (new_snapshot_epoch_id.byte_at(31) & 15) == 0
    }

    /// Assemble and publish a new epoch snapshot by merging a state delta
    /// onto its parent snapshot.
    ///
    /// A genesis merge (`old == NULL_EPOCH`) creates the staging database
    /// from scratch; an incremental merge copies the parent's directory
    /// (reflink where the platform has it, byte-wise otherwise; with
    /// `force_cow` a platform without reflink is refused), discards the
    /// inherited delta dump, and dumps the new one.  The dump is then
    /// merged into the rows and the root recorded.  At a checkpoint height
    /// with an isolated MPT, the `latest` MPT is duplicated into the
    /// per-epoch MPT directory for later recovery.  The staging writer is
    /// closed, and the single publication step renames the staging
    /// directory onto the canonical path.  On any refusal nothing changes.
    ///
    /// The returned `SnapshotInfo` carries the recorded root; the caller,
    /// holding its snapshot-info map exclusively (the borrow plays the part
    /// of the returned write lock), installs it atomically with the
    /// publication.
    #[verifier::rlimit(100)]
    #[verifier::spinoff_prover]
    pub fn new_snapshot_by_merging(
        &mut self,
        old_snapshot_epoch_id: &EpochId,
        snapshot_epoch_id: EpochId,
        delta_mpt: Vec<KvPair>,
        in_progress_snapshot_info: SnapshotInfo,
        new_epoch_height: u64,
    ) -> (r: Result<SnapshotInfo, Error>)
        requires
            old(self).wf(),
            old_snapshot_epoch_id.wf(),
            snapshot_epoch_id.wf(),
            (old_snapshot_epoch_id@ != spec_null_hash() && !spec_mpt_inline(
                old(self).cfg(),
                new_epoch_height,
            )) ==> new_epoch_height > old(self).st().latest_height,
        ensures
            final(self).wf(),
            final(self).cfg() == old(self).cfg(),
            ({
                let step = spec_merge_step(
                    old(self).cfg(),
                    old(self).st(),
                    old_snapshot_epoch_id@,
                    snapshot_epoch_id@,
                    rows_view(delta_mpt@),
                    new_epoch_height,
                );
                &&& final(self).st() == step.state
                &&& (match step.fail {
                    Some(e) => r is Err && r->Err_0 == e,
                    None => r is Ok && r->Ok_0.merkle_root@ == spec_root_hash(step.root)
                        && r->Ok_0.merkle_root.wf(),
                })
            }),
    {
        let ghost cfg = self.cfg();
        let ghost s0 = self.st();
        let ghost step = spec_merge_step(cfg, s0, old_snapshot_epoch_id@, snapshot_epoch_id@,
            rows_view(delta_mpt@), new_epoch_height);
        proof {
            lemma_merge_paths_distinct(cfg, old_snapshot_epoch_id@, snapshot_epoch_id@);
            lemma_merge_names_no_slash(old_snapshot_epoch_id@, snapshot_epoch_id@);
        }
        let temp_db_path = self.get_merge_temp_snapshot_db_path(
            old_snapshot_epoch_id,
            &snapshot_epoch_id,
        );
        let final_path = self.get_snapshot_db_path(&snapshot_epoch_id);
        let old_path = self.get_snapshot_db_path(old_snapshot_epoch_id);
        let latest_path = self.get_latest_mpt_snapshot_db_path();
        let per_mpt_path = self.get_mpt_snapshot_db_path(&snapshot_epoch_id);
        let temp_mpt_path = self.get_merge_temp_mpt_snapshot_db_path(&snapshot_epoch_id);
        let inline = self.is_mpt_table_in_current_db_for_epoch(new_epoch_height);
        let genesis = old_snapshot_epoch_id.is_null();
        assert(self.era_epoch_count > 0);
        let ear = !inline && new_epoch_height % self.era_epoch_count == 0;

        if !genesis && !self.disk.contains_key(&old_path) {
            return Err(Error::SnapshotNotFound);
        }
        if !genesis && !self.platform.cow_supported() && self.force_cow {
            return Err(Error::SnapshotCowCreation);
        }
        if ear && self.force_cow && !self.platform.cow_supported() {
            return Err(Error::SnapshotCowCreation);
        }
        if ear && !self.disk.contains_key(&latest_path) {
            return Err(Error::SnapshotNotFound);
        }
        if self.disk.contains_key(&final_path) {
            return Err(Error::SnapshotAlreadyExists);
        }
        // The remaining refusals of the staging writer, checked up front so
        // that a refusal stages nothing.
        if self.already_open_snapshots.contains_key(&temp_db_path) {
            return Err(Error::SnapshotAlreadyExists);
        }
        if !self.open_snapshot_semaphore.peek_available() {
            return Err(Error::WouldBlock);
        }
        if !inline {
            if !self.latest_mpt_snapshot_semaphore.peek_available() {
                return Err(Error::WouldBlock);
            }
            let mp_check: &String = if genesis {
                &per_mpt_path
            } else {
                &latest_path
            };
            if self.mpt_already_open_snapshots.contains_key(mp_check) {
                return Err(Error::SnapshotAlreadyExists);
            }
            if !self.mpt_open_snapshot_semaphore.peek_available() {
                return Err(Error::WouldBlock);
            }
            if !genesis && !self.disk.contains_key(&latest_path) {
                return Err(Error::SnapshotNotFound);
            }
        }

        // Stage: copy the parent's directory under the temp name.
        if !genesis {
            let dup = match self.disk.get(&old_path) {
                Some(db) => db.duplicate(),
                None => {
                    proof {
                        assert(false);
                    }
                    DbStore::empty(true)
                },
            };
            self.disk.insert(temp_db_path.clone(), dup);
        }
        let ghost s_copy = if genesis {
            s0
        } else {
            SdmState { disk: s0.disk.insert(temp_db_path@, s0.disk[old_path@]), ..s0 }
        };
        assert(self.st() == s_copy);

        // Open the staging database for exclusive write.
        let mpt_arg: Option<String> = if genesis && !inline {
            Some(per_mpt_path.clone())
        } else {
            None
        };
        let ghost w = spec_open_data_write(cfg, s_copy, temp_db_path@, genesis, new_epoch_height,
            if genesis && !inline { Some(per_mpt_path@) } else { None }, snapshot_epoch_id@);
        let write_handle = match self.open_snapshot_write(
            temp_db_path.clone(),
            genesis,
            new_epoch_height,
            mpt_arg,
            &snapshot_epoch_id,
        ) {
            Ok(h) => h,
            Err(e) => {
                proof {
                    assert(w.fail is None);
                    assert(false);
                }
                return Err(e);
            },
        };
        assert(self.st() == w.state);

        // Discard the inherited dump, dump the new delta, merge, record the
        // root.
        let mut staged = match self.disk.take(&temp_db_path) {
            Some(d) => d,
            None => {
                proof {
                    assert(false);
                }
                DbStore::empty(true)
            },
        };
        staged.drop_delta_dump();
        staged.dump_delta(delta_mpt);
        proof {
            assert(staged@.delta =~= rows_view(delta_mpt@));
        }
        let root_word = staged.direct_merge();
        self.disk.insert(temp_db_path.clone(), staged);
        let ghost s2 = SdmState { disk: w.state.disk.insert(temp_db_path@, spec_merge_db1(cfg, s0,
            old_snapshot_epoch_id@, snapshot_epoch_id@, rows_view(delta_mpt@),
            new_epoch_height)), ..w.state };
        proof {
            assert(self.disk@ =~= s2.disk);
            assert(self.st() == s2);
        }

        // Epoch-aligned retention: duplicate the latest MPT into the
        // per-epoch MPT directory.
        if ear {
            self.disk.remove(&temp_mpt_path);
            let latest_dup = match self.disk.get(&latest_path) {
                Some(db) => db.duplicate(),
                None => {
                    proof {
                        assert(false);
                    }
                    DbStore::empty(false)
                },
            };
            self.disk.insert(per_mpt_path.clone(), latest_dup);
        }
        let ghost s3 = if ear {
            SdmState { disk: s2.disk.remove(temp_mpt_path@).insert(per_mpt_path@,
                s2.disk[latest_path@]), ..s2 }
        } else {
            s2
        };
        assert(self.st() == s3);

        // Close the staging writer; its registry entry and permits return.
        self.close_write_handle(write_handle);
        let ghost s4 = spec_close_writer_state(s3, temp_db_path@, if inline { None } else if
            genesis { Some(per_mpt_path@) } else { Some(latest_path@) });
        assert(self.st() == s4);

        // Publish: rename the staging directory onto the canonical path.
        let published = match self.disk.take(&temp_db_path) {
            Some(d) => d,
            None => {
                proof {
                    assert(false);
                }
                DbStore::empty(true)
            },
        };
        self.disk.insert(final_path, published);
        proof {
            assert(self.disk@ =~= step.state.disk);
            assert(self.st() == step.state);
        }
        let mut info = in_progress_snapshot_info;
        info.merkle_root = merkle_hash_of_word(root_word);
        Ok(info)
    }

    /// Destroy an epoch's snapshot, on the data side and the MPT side.
    ///
    /// Live shared readers are flagged so that the close callback removes
    /// the directory when the last of them is gone; with nothing open the
    /// directories are removed at once.  Destroying a snapshot held open
    /// for exclusive write is refused, and the drain window suspends.
    pub fn destroy_snapshot(&mut self, snapshot_epoch_id: &EpochId) -> (r: Result<(), Error>)
        requires
            old(self).wf(),
            snapshot_epoch_id.wf(),
        ensures
            final(self).wf(),
            final(self).cfg() == old(self).cfg(),
            final(self).st() == spec_destroy_step(
                old(self).cfg(),
                old(self).st(),
                snapshot_epoch_id@,
            ).state,
            ({
                let step = spec_destroy_step(old(self).cfg(), old(self).st(), snapshot_epoch_id@);
                match step.fail {
                    Some(e) => r is Err && r->Err_0 == e,
                    None => r is Ok,
                }
            }),
    {
        let ghost cfg = self.cfg();
        let ghost s0 = self.st();
        let path = self.get_snapshot_db_path(snapshot_epoch_id);
        let mpt_path = self.get_mpt_snapshot_db_path(snapshot_epoch_id);
        let is_null = snapshot_epoch_id.is_null();

        let entry_opt: Option<DataOpenState> = match self.already_open_snapshots.get(&path) {
            Some(e) => Some(*e),
            None => None,
        };
        match entry_opt {
            Some(DataOpenState::ExclusiveWriter) => {
                return Err(Error::SnapshotHeldForWrite);
            },
            Some(DataOpenState::SharedReaders { owners, .. }) => {
                if owners == 0 {
                    return Err(Error::WouldBlock);
                }
            },
            None => {},
        }
        let mentry_opt: Option<MptOpenState> = match self.mpt_already_open_snapshots.get(
            &mpt_path,
        ) {
            Some(e) => Some(*e),
            None => None,
        };
        match mentry_opt {
            Some(MptOpenState::ExclusiveWriter { .. }) => {
                return Err(Error::SnapshotHeldForWrite);
            },
            Some(MptOpenState::SharedReaders { owners, .. }) => {
                if owners == 0 {
                    return Err(Error::WouldBlock);
                }
            },
            None => {},
        }

        match entry_opt {
            Some(DataOpenState::SharedReaders { owners, .. }) => {
                self.already_open_snapshots.insert(
                    path.clone(),
                    DataOpenState::SharedReaders { owners, remove_on_close: true },
                );
                proof {
                    lemma_insert_same_key_dom(s0.registry, path@);
                }
            },
            _ => {
                if !is_null {
                    self.disk.remove(&path);
                }
            },
        }
        match mentry_opt {
            Some(MptOpenState::SharedReaders { owners, holds_latest_permit, .. }) => {
                self.mpt_already_open_snapshots.insert(
                    mpt_path.clone(),
                    MptOpenState::SharedReaders {
                        owners,
                        remove_on_close: true,
                        holds_latest_permit,
                    },
                );
                proof {
                    lemma_insert_same_key_dom_mpt(s0.mpt_registry, mpt_path@);
                }
            },
            _ => {
                if !is_null {
                    self.disk.remove(&mpt_path);
                }
            },
        }
        Ok(())
    }
}

/// State and failure of an exclusive open.
pub ghost struct WriteStep {
    pub state: SdmState,
    pub fail: Option<Error>,
}

/// Open (or create) an MPT database for exclusive write at `mp`.
///
/// Takes the single `latest` writer permit and one MPT open permit, both
/// forgotten into the open database, registers the exclusive entry, and
/// moves the latest-snapshot pointer to the new epoch.
pub open spec fn spec_open_mpt_write(
    cfg: SdmConfig,
    s: SdmState,
    mp: Seq<char>,
    create: bool,
    height: u64,
    epoch: Seq<u8>,
) -> WriteStep {
    if !s.latest_free {
        WriteStep { state: s, fail: Some(Error::WouldBlock) }
    } else if s.mpt_registry.dom().contains(mp) {
        WriteStep { state: s, fail: Some(Error::SnapshotAlreadyExists) }
    } else if s.mpt_free == 0 {
        WriteStep { state: s, fail: Some(Error::WouldBlock) }
    } else if !create && !s.disk.dom().contains(mp) {
        WriteStep { state: s, fail: Some(Error::SnapshotNotFound) }
    } else {
        WriteStep {
            state: SdmState {
                mpt_registry: s.mpt_registry.insert(
                    mp,
                    MptOpenState::ExclusiveWriter { holds_latest_permit: true },
                ),
                mpt_free: (s.mpt_free - 1) as nat,
                latest_free: false,
                disk: if create {
                    s.disk.insert(mp, spec_empty_db(false))
                } else {
                    s.disk
                },
                latest_id: epoch,
                latest_height: height,
                ..s
            },
            fail: None,
        }
    }
}

/// Open (or create) a data snapshot database for exclusive write at
/// `path`, together with its MPT writer when the MPT table is isolated at
/// this height: at the given staging path when one is supplied, else the
/// `latest` MPT.  On any refusal nothing changes.
pub open spec fn spec_open_data_write(
    cfg: SdmConfig,
    s: SdmState,
    path: Seq<char>,
    create: bool,
    height: u64,
    mpt_path: Option<Seq<char>>,
    epoch: Seq<u8>,
) -> WriteStep {
    let inline = spec_mpt_inline(cfg, height);
    if s.registry.dom().contains(path) {
        WriteStep { state: s, fail: Some(Error::SnapshotAlreadyExists) }
    } else if s.data_free == 0 {
        WriteStep { state: s, fail: Some(Error::WouldBlock) }
    } else if !create && !s.disk.dom().contains(path) {
        WriteStep { state: s, fail: Some(Error::SnapshotNotFound) }
    } else {
        let mpt_step = if inline {
            WriteStep { state: s, fail: None }
        } else {
            let mp = match mpt_path {
                Some(v) => v,
                None => spec_latest_mpt_path(cfg),
            };
            spec_open_mpt_write(cfg, s, mp, mpt_path is Some, height, epoch)
        };
        if mpt_step.fail is Some {
            WriteStep { state: s, fail: mpt_step.fail }
        } else {
            let s1 = mpt_step.state;
            let disk2 = if create {
                s1.disk.insert(path, spec_empty_db(inline))
            } else if !inline {
                s1.disk.insert(path, DbView { mpt_inline: false, ..s1.disk[path] })
            } else {
                s1.disk
            };
            WriteStep {
                state: SdmState {
                    registry: s1.registry.insert(path, DataOpenState::ExclusiveWriter),
                    data_free: (s1.data_free - 1) as nat,
                    disk: disk2,
                    ..s1
                },
                fail: None,
            }
        }
    }
}

/// State and result of `new_snapshot_by_merging`.
pub ghost struct MergeStep {
    pub state: SdmState,
    pub fail: Option<Error>,
    /// The merged snapshot's recorded root.
    pub root: u64,
    /// Whether a background defragmentation pass is due on the published
    /// directory.
    pub defrag: bool,
}

/// The content the merge stages and publishes: the parent's rows (none for
/// a genesis merge) with the delta dump applied in order, no staged dump,
/// and the digest of the merged rows recorded as root.
pub open spec fn spec_merge_db1(
    cfg: SdmConfig,
    s: SdmState,
    oe: Seq<u8>,
    ne: Seq<u8>,
    delta: Seq<(Seq<u8>, Seq<u8>)>,
    height: u64,
) -> DbView {
    let temp = spec_merge_temp_path(cfg, oe, ne);
    let old_p = spec_data_db_path(cfg, oe);
    let genesis = oe == spec_null_hash();
    let inline = spec_mpt_inline(cfg, height);
    let s_copy = if genesis {
        s
    } else {
        SdmState { disk: s.disk.insert(temp, s.disk[old_p]), ..s }
    };
    let w = spec_open_data_write(
        cfg,
        s_copy,
        temp,
        genesis,
        height,
        if genesis && !inline {
            Some(spec_mpt_db_path(cfg, ne))
        } else {
            None
        },
        ne,
    );
    let db0 = w.state.disk[temp];
    let merged_rows = spec_apply_delta(db0.rows, delta);
    DbView {
        rows: merged_rows,
        delta: Seq::empty(),
        mpt_inline: db0.mpt_inline,
        root: spec_db_root(merged_rows),
    }
}

/// The whole decision of `new_snapshot_by_merging`; see the method for the
/// walk-through.
pub open spec fn spec_merge_step(
    cfg: SdmConfig,
    s: SdmState,
    oe: Seq<u8>,
    ne: Seq<u8>,
    delta: Seq<(Seq<u8>, Seq<u8>)>,
    height: u64,
) -> MergeStep {
    let temp = spec_merge_temp_path(cfg, oe, ne);
    let final_p = spec_data_db_path(cfg, ne);
    let old_p = spec_data_db_path(cfg, oe);
    let latest = spec_latest_mpt_path(cfg);
    let per_mpt = spec_mpt_db_path(cfg, ne);
    let tmp2 = spec_merge_temp_mpt_path(cfg, ne);
    let inline = spec_mpt_inline(cfg, height);
    let genesis = oe == spec_null_hash();
    let cow = !genesis && cfg.platform.spec_cow_supported();
    let ear = !inline && height as int % cfg.era_epoch_count as int == 0;
    if !genesis && !s.disk.dom().contains(old_p) {
        MergeStep { state: s, fail: Some(Error::SnapshotNotFound), root: 0, defrag: false }
    } else if !genesis && !cfg.platform.spec_cow_supported() && cfg.force_cow {
        MergeStep { state: s, fail: Some(Error::SnapshotCowCreation), root: 0, defrag: false }
    } else if ear && cfg.force_cow && !cfg.platform.spec_cow_supported() {
        MergeStep { state: s, fail: Some(Error::SnapshotCowCreation), root: 0, defrag: false }
    } else if ear && !s.disk.dom().contains(latest) {
        MergeStep { state: s, fail: Some(Error::SnapshotNotFound), root: 0, defrag: false }
    } else if s.disk.dom().contains(final_p) {
        MergeStep { state: s, fail: Some(Error::SnapshotAlreadyExists), root: 0, defrag: false }
    } else {
        let s_copy = if genesis {
            s
        } else {
            SdmState { disk: s.disk.insert(temp, s.disk[old_p]), ..s }
        };
        let w = spec_open_data_write(
            cfg,
            s_copy,
            temp,
            genesis,
            height,
            if genesis && !inline {
                Some(per_mpt)
            } else {
                None
            },
            ne,
        );
        if w.fail is Some {
            MergeStep { state: s, fail: w.fail, root: 0, defrag: false }
        } else {
            let s1 = w.state;
            let db1 = spec_merge_db1(cfg, s, oe, ne, delta, height);
            let root = db1.root;
            let s2 = SdmState { disk: s1.disk.insert(temp, db1), ..s1 };
            let s3 = if ear {
                SdmState { disk: s2.disk.remove(tmp2).insert(per_mpt, s2.disk[latest]), ..s2 }
            } else {
                s2
            };
            let s4 = spec_close_writer_state(
                s3,
                temp,
                if inline {
                    None
                } else if genesis {
                    Some(per_mpt)
                } else {
                    Some(latest)
                },
            );
            let s5 = SdmState { disk: s4.disk.remove(temp).insert(final_p, db1), ..s4 };
            MergeStep {
                state: s5,
                fail: None,
                root,
                defrag: cow && cfg.platform.spec_defrag_supported() && ne[31] & 15 == 0,
            }
        }
    }
}

/// All directory paths a merge touches are pairwise distinct: temp and
/// canonical names differ in length, data and MPT roots differ, and hex is
/// injective.  Publication by the final rename is therefore the only step
/// that makes the new epoch's canonical path exist.
pub proof fn lemma_merge_paths_distinct(cfg: SdmConfig, oe: Seq<u8>, ne: Seq<u8>)
    requires
        cfg_inv(cfg),
        oe.len() == 32,
        ne.len() == 32,
    ensures
        spec_merge_temp_path(cfg, oe, ne) != spec_data_db_path(cfg, ne),
        spec_merge_temp_path(cfg, oe, ne) != spec_data_db_path(cfg, oe),
        spec_merge_temp_path(cfg, oe, ne) != spec_latest_mpt_path(cfg),
        spec_merge_temp_path(cfg, oe, ne) != spec_mpt_db_path(cfg, ne),
        spec_merge_temp_path(cfg, oe, ne) != spec_merge_temp_mpt_path(cfg, ne),
        spec_data_db_path(cfg, ne) != spec_mpt_db_path(cfg, ne),
        spec_data_db_path(cfg, ne) != spec_mpt_db_path(cfg, oe),
        spec_data_db_path(cfg, ne) != spec_latest_mpt_path(cfg),
        spec_data_db_path(cfg, ne) != spec_merge_temp_mpt_path(cfg, ne),
        spec_data_db_path(cfg, oe) != spec_mpt_db_path(cfg, ne),
        spec_data_db_path(cfg, oe) != spec_latest_mpt_path(cfg),
        spec_data_db_path(cfg, oe) != spec_merge_temp_mpt_path(cfg, ne),
        spec_mpt_db_path(cfg, ne) != spec_latest_mpt_path(cfg),
        spec_mpt_db_path(cfg, ne) != spec_merge_temp_mpt_path(cfg, ne),
        spec_merge_temp_mpt_path(cfg, ne) != spec_latest_mpt_path(cfg),
        oe != ne ==> spec_data_db_path(cfg, ne) != spec_data_db_path(cfg, oe),
{
    lemma_name_literals();
    lemma_name_lengths(oe, ne);
    lemma_name_lengths(ne, ne);
    lemma_hex_digits_facts(oe);
    lemma_hex_digits_facts(ne);
    lemma_sdm_path_ne(cfg.snapshot_dir, spec_merge_temp_db_name(oe, ne), cfg.snapshot_dir,
        spec_snapshot_db_name(ne));
    lemma_sdm_path_ne(cfg.snapshot_dir, spec_merge_temp_db_name(oe, ne), cfg.snapshot_dir,
        spec_snapshot_db_name(oe));
    lemma_sdm_path_ne(cfg.snapshot_dir, spec_merge_temp_db_name(oe, ne), cfg.mpt_dir,
        spec_latest_mpt_db_name());
    lemma_sdm_path_ne(cfg.snapshot_dir, spec_merge_temp_db_name(oe, ne), cfg.mpt_dir,
        spec_snapshot_db_name(ne));
    lemma_sdm_path_ne(cfg.snapshot_dir, spec_merge_temp_db_name(oe, ne), cfg.mpt_dir,
        spec_merge_temp_mpt_db_name(ne));
    lemma_sdm_path_ne(cfg.snapshot_dir, spec_snapshot_db_name(ne), cfg.mpt_dir,
        spec_snapshot_db_name(ne));
    lemma_sdm_path_ne(cfg.snapshot_dir, spec_snapshot_db_name(ne), cfg.mpt_dir,
        spec_snapshot_db_name(oe));
    lemma_sdm_path_ne(cfg.snapshot_dir, spec_snapshot_db_name(ne), cfg.mpt_dir,
        spec_latest_mpt_db_name());
    lemma_sdm_path_ne(cfg.snapshot_dir, spec_snapshot_db_name(ne), cfg.mpt_dir,
        spec_merge_temp_mpt_db_name(ne));
    lemma_sdm_path_ne(cfg.snapshot_dir, spec_snapshot_db_name(oe), cfg.mpt_dir,
        spec_snapshot_db_name(ne));
    lemma_sdm_path_ne(cfg.snapshot_dir, spec_snapshot_db_name(oe), cfg.mpt_dir,
        spec_latest_mpt_db_name());
    lemma_sdm_path_ne(cfg.snapshot_dir, spec_snapshot_db_name(oe), cfg.mpt_dir,
        spec_merge_temp_mpt_db_name(ne));
    lemma_sdm_path_ne(cfg.mpt_dir, spec_snapshot_db_name(ne), cfg.mpt_dir,
        spec_latest_mpt_db_name());
    lemma_sdm_path_ne(cfg.mpt_dir, spec_snapshot_db_name(ne), cfg.mpt_dir,
        spec_merge_temp_mpt_db_name(ne));
    lemma_sdm_path_ne(cfg.mpt_dir, spec_merge_temp_mpt_db_name(ne), cfg.mpt_dir,
        spec_latest_mpt_db_name());
    if oe != ne {
        if spec_snapshot_db_name(ne) == spec_snapshot_db_name(oe) {
            crate::names::lemma_snapshot_db_name_injective(ne, oe);
            assert(false);
        }
        lemma_sdm_path_ne(cfg.snapshot_dir, spec_snapshot_db_name(ne), cfg.snapshot_dir,
            spec_snapshot_db_name(oe));
    }
}

/// The hex digits of a hash name are slash free and never collide with the
/// letters of the naming prefixes.
proof fn lemma_hex_digits_facts(e: Seq<u8>)
    ensures
        spec_has_no_slash(spec_snapshot_db_name(e)),
        spec_has_no_slash(spec_merge_temp_db_name(e, e)),
{
    crate::names::lemma_snapshot_db_name_no_slash(e);
    lemma_name_literals();
    crate::hexchars::lemma_hex_of_bytes_digits(e);
    let s = spec_merge_temp_db_name(e, e);
    assert forall|i: int| 0 <= i < s.len() implies (#[trigger] s[i]) != '/' by {
        if i < 18 {
            assert(s[i] == spec_merge_temp_prefix()[i]);
        } else if i < 18 + 2 * e.len() {
            assert(s[i] == crate::hexchars::hex_of_bytes(e)[i - 18]);
        } else {
            assert(s[i] == crate::hexchars::hex_of_bytes(e)[i - 18 - 2 * e.len()]);
        }
    }
}

/// Two snapshot-store paths are distinct when their names differ, or when
/// their names agree but their holding directories differ.
proof fn lemma_sdm_path_ne(d1: Seq<char>, n1: Seq<char>, d2: Seq<char>, n2: Seq<char>)
    requires
        spec_has_no_slash(n1),
        spec_has_no_slash(n2),
        n1 != n2 || d1 != d2,
    ensures
        spec_join(d1, n1) != spec_join(d2, n2),
{
    if spec_join(d1, n1) == spec_join(d2, n2) {
        crate::names::lemma_join_injective(d1, n1, d2, n2);
        assert(n1 =~= n2 && d1 =~= d2);
        assert(false);
    }
}

/// Name sequences used by merges are slash free.
proof fn lemma_merge_names_no_slash(oe: Seq<u8>, ne: Seq<u8>)
    ensures
        spec_has_no_slash(spec_snapshot_db_name(oe)),
        spec_has_no_slash(spec_snapshot_db_name(ne)),
        spec_has_no_slash(spec_merge_temp_db_name(oe, ne)),
        spec_has_no_slash(spec_merge_temp_mpt_db_name(ne)),
        spec_has_no_slash(spec_latest_mpt_db_name()),
        spec_has_no_slash(spec_full_sync_temp_db_name(oe, ne)),
{
    lemma_name_literals();
    crate::names::lemma_snapshot_db_name_no_slash(oe);
    crate::names::lemma_snapshot_db_name_no_slash(ne);
    crate::hexchars::lemma_hex_of_bytes_digits(oe);
    crate::hexchars::lemma_hex_of_bytes_digits(ne);
    let s = spec_merge_temp_db_name(oe, ne);
    assert forall|i: int| 0 <= i < s.len() implies (#[trigger] s[i]) != '/' by {
        if i < 18 {
            assert(s[i] == spec_merge_temp_prefix()[i]);
        } else if i < 18 + 2 * oe.len() {
            assert(s[i] == crate::hexchars::hex_of_bytes(oe)[i - 18]);
        } else {
            assert(s[i] == crate::hexchars::hex_of_bytes(ne)[i - 18 - 2 * oe.len()]);
        }
    }
    let m = spec_merge_temp_mpt_db_name(ne);
    assert forall|i: int| 0 <= i < m.len() implies (#[trigger] m[i]) != '/' by {
        if i < 18 {
            assert(m[i] == spec_merge_temp_prefix()[i]);
        } else {
            assert(m[i] == crate::hexchars::hex_of_bytes(ne)[i - 18]);
        }
    }
    let f = spec_full_sync_temp_db_name(oe, ne);
    assert forall|i: int| 0 <= i < f.len() implies (#[trigger] f[i]) != '/' by {
        if i < 22 {
            assert(f[i] == spec_full_sync_temp_prefix()[i]);
        } else if i < 22 + 2 * oe.len() {
            assert(f[i] == crate::hexchars::hex_of_bytes(oe)[i - 22]);
        } else {
            assert(f[i] == crate::hexchars::hex_of_bytes(ne)[i - 22 - 2 * oe.len()]);
        }
    }
}

/// State and failure of staging rows into an open writer.
pub ghost struct StageStep {
    pub state: SdmState,
    pub fail: Option<Error>,
}

/// Effect of streaming rows into a database open for exclusive write: the
/// rows are dumped and merged, and the root recorded.
pub open spec fn spec_dump_step(s: SdmState, path: Seq<char>, rows: Seq<(Seq<u8>, Seq<u8>)>) -> StageStep {
    if !s.disk.dom().contains(path) {
        StageStep { state: s, fail: Some(Error::SnapshotNotFound) }
    } else {
        let db0 = s.disk[path];
        let merged = spec_apply_delta(db0.rows, db0.delta + rows);
        StageStep {
            state: SdmState {
                disk: s.disk.insert(
                    path,
                    DbView {
                        rows: merged,
                        delta: Seq::empty(),
                        mpt_inline: db0.mpt_inline,
                        root: spec_db_root(merged),
                    },
                ),
                ..s
            },
            fail: None,
        }
    }
}

/// The whole decision of `finalize_full_sync_snapshot`.
///
/// With a staged MPT temp, the `latest` MPT directory is replaced by it
/// and then duplicated into the per-epoch MPT directory, so that the
/// `latest` content and the checkpoint content coincide.  The staged data
/// directory is renamed onto the canonical path: the publication step.
pub open spec fn spec_finalize_step(
    cfg: SdmConfig,
    s: SdmState,
    epoch: Seq<u8>,
    root: Seq<u8>,
) -> StageStep {
    let tmp_data = spec_full_sync_temp_path(cfg, epoch, root);
    let tmp_mpt = spec_full_sync_temp_mpt_path(cfg, epoch, root);
    let latest = spec_latest_mpt_path(cfg);
    let final_p = spec_data_db_path(cfg, epoch);
    let per_mpt = spec_mpt_db_path(cfg, epoch);
    let tmp2 = spec_merge_temp_mpt_path(cfg, epoch);
    if s.registry.dom().contains(tmp_data) {
        StageStep { state: s, fail: Some(Error::SnapshotHeldForWrite) }
    } else if s.mpt_registry.dom().contains(tmp_mpt) {
        StageStep { state: s, fail: Some(Error::SnapshotHeldForWrite) }
    } else if s.mpt_registry.dom().contains(latest) {
        StageStep { state: s, fail: Some(Error::SnapshotHeldForWrite) }
    } else if !s.disk.dom().contains(tmp_data) {
        StageStep { state: s, fail: Some(Error::SnapshotNotFound) }
    } else if s.disk.dom().contains(final_p) {
        StageStep { state: s, fail: Some(Error::SnapshotAlreadyExists) }
    } else if s.disk.dom().contains(tmp_mpt) && cfg.force_cow
        && !cfg.platform.spec_cow_supported() {
        StageStep { state: s, fail: Some(Error::SnapshotCowCreation) }
    } else {
        let d1 = if s.disk.dom().contains(tmp_mpt) {
            s.disk.remove(tmp_mpt).insert(latest, s.disk[tmp_mpt]).remove(tmp2).insert(
                per_mpt,
                s.disk[tmp_mpt],
            )
        } else {
            s.disk
        };
        let d2 = d1.remove(tmp_data).insert(final_p, s.disk[tmp_data]);
        StageStep { state: SdmState { disk: d2, ..s }, fail: None }
    }
}

/// The whole decision of `recovery_latest_mpt_snapshot`.
///
/// The `latest` MPT is rebuilt from the per-epoch checkpoint when that
/// exists, and recreated empty otherwise.
pub open spec fn spec_recovery_step(cfg: SdmConfig, s: SdmState, epoch: Seq<u8>) -> StageStep {
    let latest = spec_latest_mpt_path(cfg);
    let src = spec_mpt_db_path(cfg, epoch);
    let tmp2 = spec_merge_temp_mpt_path(cfg, epoch);
    if s.mpt_registry.dom().contains(latest) {
        StageStep { state: s, fail: Some(Error::SnapshotHeldForWrite) }
    } else if s.disk.dom().contains(src) {
        if cfg.force_cow && !cfg.platform.spec_cow_supported() {
            StageStep { state: s, fail: Some(Error::SnapshotCowCreation) }
        } else {
            StageStep {
                state: SdmState { disk: s.disk.remove(tmp2).insert(latest, s.disk[src]), ..s },
                fail: None,
            }
        }
    } else {
        StageStep {
            state: SdmState { disk: s.disk.insert(latest, spec_empty_db(false)), ..s },
            fail: None,
        }
    }
}

impl SnapshotDbManagerSqlite {
    /// Allocate the staging directories of a full-sync import and open
    /// them for exclusive write.  The caller streams the snapshot's state
    /// into the handle ([`Self::dump_into_open_snapshot`]), closes it
    /// ([`Self::close_write_handle`]), and finalizes.
    pub fn new_temp_snapshot_for_full_sync(
        &mut self,
        snapshot_epoch_id: &EpochId,
        merkle_root: &MerkleHash,
        epoch_height: u64,
    ) -> (r: Result<SnapshotDbWriteHandle, Error>)
        requires
            old(self).wf(),
            snapshot_epoch_id.wf(),
            merkle_root.wf(),
        ensures
            final(self).wf(),
            final(self).cfg() == old(self).cfg(),
            ({
                let cfg = old(self).cfg();
                let inline = spec_mpt_inline(cfg, epoch_height);
                let w = spec_open_data_write(
                    cfg,
                    old(self).st(),
                    spec_full_sync_temp_path(cfg, snapshot_epoch_id@, merkle_root@),
                    true,
                    epoch_height,
                    if inline {
                        None
                    } else {
                        Some(spec_full_sync_temp_mpt_path(cfg, snapshot_epoch_id@, merkle_root@))
                    },
                    snapshot_epoch_id@,
                );
                &&& final(self).st() == w.state
                &&& (match w.fail {
                    Some(e) => r is Err && r->Err_0 == e,
                    None => {
                        &&& r is Ok
                        &&& r->Ok_0.snapshot_path@ == spec_full_sync_temp_path(
                            cfg,
                            snapshot_epoch_id@,
                            merkle_root@,
                        )
                        &&& r->Ok_0.spec_mpt_path() == (if inline {
                            None::<Seq<char>>
                        } else {
                            Some(
                                spec_full_sync_temp_mpt_path(
                                    cfg,
                                    snapshot_epoch_id@,
                                    merkle_root@,
                                ),
                            )
                        })
                    },
                })
            }),
    {
        let inline = self.is_mpt_table_in_current_db_for_epoch(epoch_height);
        let temp_mpt: Option<String> = if inline {
            None
        } else {
            Some(self.get_full_sync_temp_mpt_snapshot_db_path(snapshot_epoch_id, merkle_root))
        };
        let temp_db_path = self.get_full_sync_temp_snapshot_db_path(snapshot_epoch_id, merkle_root);
        self.open_snapshot_write(temp_db_path, true, epoch_height, temp_mpt, snapshot_epoch_id)
    }

    /// Stream rows into a snapshot database open for exclusive write: they
    /// are dumped, merged into the rows, and the root recorded.
    pub fn dump_into_open_snapshot(
        &mut self,
        handle: &SnapshotDbWriteHandle,
        rows: Vec<KvPair>,
    ) -> (r: Result<(), Error>)
        requires
            old(self).wf(),
            old(self).st().registry.dom().contains(handle.snapshot_path@),
            old(self).st().registry[handle.snapshot_path@] is ExclusiveWriter,
        ensures
            final(self).wf(),
            final(self).cfg() == old(self).cfg(),
            ({
                let step = spec_dump_step(old(self).st(), handle.snapshot_path@, rows_view(rows@));
                &&& final(self).st() == step.state
                &&& (match step.fail {
                    Some(e) => r is Err && r->Err_0 == e,
                    None => r is Ok,
                })
            }),
    {
        let mut db = match self.disk.take(&handle.snapshot_path) {
            Some(d) => d,
            None => {
                proof {
                    assert(self.disk@ =~= old(self).st().disk);
                    assert(self.st() == old(self).st());
                }
                return Err(Error::SnapshotNotFound);
            },
        };
        db.dump_delta(rows);
        let _root = db.direct_merge();
        self.disk.insert(handle.snapshot_path.clone(), db);
        proof {
            let step = spec_dump_step(old(self).st(), handle.snapshot_path@, rows_view(rows@));
            assert(self.disk@ =~= step.state.disk);
            assert(self.st() == step.state);
        }
        Ok(())
    }

    /// Promote a staged full-sync import: replace the `latest` MPT by the
    /// staged MPT and duplicate it into the per-epoch checkpoint, then
    /// publish the staged data directory under its canonical path.  The
    /// caller holds its snapshot-info map exclusively across the call (the
    /// borrow plays the part of the returned write lock).
    pub fn finalize_full_sync_snapshot(
        &mut self,
        snapshot_epoch_id: &EpochId,
        merkle_root: &MerkleHash,
    ) -> (r: Result<(), Error>)
        requires
            old(self).wf(),
            snapshot_epoch_id.wf(),
            merkle_root.wf(),
        ensures
            final(self).wf(),
            final(self).cfg() == old(self).cfg(),
            ({
                let step = spec_finalize_step(
                    old(self).cfg(),
                    old(self).st(),
                    snapshot_epoch_id@,
                    merkle_root@,
                );
                &&& final(self).st() == step.state
                &&& (match step.fail {
                    Some(e) => r is Err && r->Err_0 == e,
                    None => r is Ok,
                })
            }),
            ({
                let cfg = old(self).cfg();
                let step = spec_finalize_step(cfg, old(self).st(), snapshot_epoch_id@,
                    merkle_root@);
                (step.fail is None && old(self).st().disk.dom().contains(
                    spec_full_sync_temp_mpt_path(cfg, snapshot_epoch_id@, merkle_root@),
                )) ==> {
                    &&& step.state.disk.dom().contains(spec_latest_mpt_path(cfg))
                    &&& step.state.disk.dom().contains(spec_mpt_db_path(cfg, snapshot_epoch_id@))
                    &&& step.state.disk[spec_latest_mpt_path(cfg)] == step.state.disk[spec_mpt_db_path(
                        cfg,
                        snapshot_epoch_id@,
                    )]
                }
            }),
    {
        let ghost cfg = self.cfg();
        let ghost s0 = self.st();
        proof {
            lemma_full_sync_paths_distinct(cfg, snapshot_epoch_id@, merkle_root@);
        }
        let temp_mpt_path = self.get_full_sync_temp_mpt_snapshot_db_path(
            snapshot_epoch_id,
            merkle_root,
        );
        let latest_path = self.get_latest_mpt_snapshot_db_path();
        let temp_db_path = self.get_full_sync_temp_snapshot_db_path(snapshot_epoch_id, merkle_root);
        let final_path = self.get_snapshot_db_path(snapshot_epoch_id);
        let per_mpt_path = self.get_mpt_snapshot_db_path(snapshot_epoch_id);
        let temp2_path = self.get_merge_temp_mpt_snapshot_db_path(snapshot_epoch_id);

        if self.already_open_snapshots.contains_key(&temp_db_path) {
            return Err(Error::SnapshotHeldForWrite);
        }
        if self.mpt_already_open_snapshots.contains_key(&temp_mpt_path) {
            return Err(Error::SnapshotHeldForWrite);
        }
        if self.mpt_already_open_snapshots.contains_key(&latest_path) {
            return Err(Error::SnapshotHeldForWrite);
        }
        if !self.disk.contains_key(&temp_db_path) {
            return Err(Error::SnapshotNotFound);
        }
        if self.disk.contains_key(&final_path) {
            return Err(Error::SnapshotAlreadyExists);
        }
        let has_temp_mpt = self.disk.contains_key(&temp_mpt_path);
        if has_temp_mpt && self.force_cow && !self.platform.cow_supported() {
            return Err(Error::SnapshotCowCreation);
        }

        if has_temp_mpt {
            let staged_mpt = match self.disk.take(&temp_mpt_path) {
                Some(d) => d,
                None => {
                    proof {
                        assert(false);
                    }
                    DbStore::empty(false)
                },
            };
            let checkpoint_copy = staged_mpt.duplicate();
            self.disk.insert(latest_path.clone(), staged_mpt);
            self.disk.remove(&temp2_path);
            self.disk.insert(per_mpt_path.clone(), checkpoint_copy);
        }
        let published = match self.disk.take(&temp_db_path) {
            Some(d) => d,
            None => {
                proof {
                    assert(false);
                }
                DbStore::empty(true)
            },
        };
        self.disk.insert(final_path.clone(), published);
        proof {
            let step = spec_finalize_step(cfg, s0, snapshot_epoch_id@, merkle_root@);
            assert(self.disk@ =~= step.state.disk);
            assert(self.st() == step.state);
        }
        Ok(())
    }

    /// Rebuild the writable `latest` MPT from the per-epoch checkpoint of
    /// `snapshot_epoch_id`, or recreate it empty when no checkpoint was
    /// ever written — the fallback after corruption.
    pub fn recovery_latest_mpt_snapshot(&mut self, snapshot_epoch_id: &EpochId) -> (r: Result<
        (),
        Error,
    >)
        requires
            old(self).wf(),
            snapshot_epoch_id.wf(),
        ensures
            final(self).wf(),
            final(self).cfg() == old(self).cfg(),
            ({
                let step = spec_recovery_step(old(self).cfg(), old(self).st(), snapshot_epoch_id@);
                &&& final(self).st() == step.state
                &&& (match step.fail {
                    Some(e) => r is Err && r->Err_0 == e,
                    None => r is Ok,
                })
            }),
    {
        let ghost cfg = self.cfg();
        let ghost s0 = self.st();
        proof {
            lemma_merge_paths_distinct(cfg, snapshot_epoch_id@, snapshot_epoch_id@);
            lemma_merge_names_no_slash(snapshot_epoch_id@, snapshot_epoch_id@);
        }
        let latest_path = self.get_latest_mpt_snapshot_db_path();
        let source_path = self.get_mpt_snapshot_db_path(snapshot_epoch_id);
        let temp_mpt_path = self.get_merge_temp_mpt_snapshot_db_path(snapshot_epoch_id);

        if self.mpt_already_open_snapshots.contains_key(&latest_path) {
            return Err(Error::SnapshotHeldForWrite);
        }
        if self.disk.contains_key(&source_path) {
            if self.force_cow && !self.platform.cow_supported() {
                return Err(Error::SnapshotCowCreation);
            }
            let dup = match self.disk.get(&source_path) {
                Some(d) => d.duplicate(),
                None => {
                    proof {
                        assert(false);
                    }
                    DbStore::empty(false)
                },
            };
            self.disk.remove(&temp_mpt_path);
            self.disk.insert(latest_path, dup);
            proof {
                let step = spec_recovery_step(cfg, s0, snapshot_epoch_id@);
                assert(self.disk@ =~= step.state.disk);
                assert(self.st() == step.state);
            }
        } else {
            self.disk.insert(latest_path, DbStore::empty(false));
        }
        Ok(())
    }
}

/// All directory paths a full-sync finalize touches are pairwise distinct.
pub proof fn lemma_full_sync_paths_distinct(cfg: SdmConfig, e: Seq<u8>, root: Seq<u8>)
    requires
        cfg_inv(cfg),
        e.len() == 32,
        root.len() == 32,
    ensures
        spec_full_sync_temp_path(cfg, e, root) != spec_data_db_path(cfg, e),
        spec_full_sync_temp_path(cfg, e, root) != spec_full_sync_temp_mpt_path(cfg, e, root),
        spec_full_sync_temp_path(cfg, e, root) != spec_latest_mpt_path(cfg),
        spec_full_sync_temp_path(cfg, e, root) != spec_mpt_db_path(cfg, e),
        spec_full_sync_temp_path(cfg, e, root) != spec_merge_temp_mpt_path(cfg, e),
        spec_data_db_path(cfg, e) != spec_full_sync_temp_mpt_path(cfg, e, root),
        spec_data_db_path(cfg, e) != spec_latest_mpt_path(cfg),
        spec_data_db_path(cfg, e) != spec_mpt_db_path(cfg, e),
        spec_data_db_path(cfg, e) != spec_merge_temp_mpt_path(cfg, e),
        spec_full_sync_temp_mpt_path(cfg, e, root) != spec_latest_mpt_path(cfg),
        spec_full_sync_temp_mpt_path(cfg, e, root) != spec_mpt_db_path(cfg, e),
        spec_full_sync_temp_mpt_path(cfg, e, root) != spec_merge_temp_mpt_path(cfg, e),
        spec_latest_mpt_path(cfg) != spec_mpt_db_path(cfg, e),
        spec_latest_mpt_path(cfg) != spec_merge_temp_mpt_path(cfg, e),
        spec_mpt_db_path(cfg, e) != spec_merge_temp_mpt_path(cfg, e),
{
    lemma_name_literals();
    lemma_name_lengths(e, root);
    lemma_merge_names_no_slash(e, root);
    lemma_merge_names_no_slash(e, e);
    lemma_sdm_path_ne(cfg.snapshot_dir, spec_full_sync_temp_db_name(e, root), cfg.snapshot_dir,
        spec_snapshot_db_name(e));
    lemma_sdm_path_ne(cfg.snapshot_dir, spec_full_sync_temp_db_name(e, root), cfg.mpt_dir,
        spec_full_sync_temp_db_name(e, root));
    lemma_sdm_path_ne(cfg.snapshot_dir, spec_full_sync_temp_db_name(e, root), cfg.mpt_dir,
        spec_latest_mpt_db_name());
    lemma_sdm_path_ne(cfg.snapshot_dir, spec_full_sync_temp_db_name(e, root), cfg.mpt_dir,
        spec_snapshot_db_name(e));
    lemma_sdm_path_ne(cfg.snapshot_dir, spec_full_sync_temp_db_name(e, root), cfg.mpt_dir,
        spec_merge_temp_mpt_db_name(e));
    lemma_sdm_path_ne(cfg.snapshot_dir, spec_snapshot_db_name(e), cfg.mpt_dir,
        spec_full_sync_temp_db_name(e, root));
    lemma_sdm_path_ne(cfg.snapshot_dir, spec_snapshot_db_name(e), cfg.mpt_dir,
        spec_latest_mpt_db_name());
    lemma_sdm_path_ne(cfg.snapshot_dir, spec_snapshot_db_name(e), cfg.mpt_dir,
        spec_snapshot_db_name(e));
    lemma_sdm_path_ne(cfg.snapshot_dir, spec_snapshot_db_name(e), cfg.mpt_dir,
        spec_merge_temp_mpt_db_name(e));
    lemma_sdm_path_ne(cfg.mpt_dir, spec_full_sync_temp_db_name(e, root), cfg.mpt_dir,
        spec_latest_mpt_db_name());
    lemma_sdm_path_ne(cfg.mpt_dir, spec_full_sync_temp_db_name(e, root), cfg.mpt_dir,
        spec_snapshot_db_name(e));
    lemma_sdm_path_ne(cfg.mpt_dir, spec_full_sync_temp_db_name(e, root), cfg.mpt_dir,
        spec_merge_temp_mpt_db_name(e));
    lemma_sdm_path_ne(cfg.mpt_dir, spec_latest_mpt_db_name(), cfg.mpt_dir,
        spec_snapshot_db_name(e));
    lemma_sdm_path_ne(cfg.mpt_dir, spec_latest_mpt_db_name(), cfg.mpt_dir,
        spec_merge_temp_mpt_db_name(e));
    lemma_sdm_path_ne(cfg.mpt_dir, spec_snapshot_db_name(e), cfg.mpt_dir,
        spec_merge_temp_mpt_db_name(e));
}

/// Inserting a fresh key grows the domain by one.
proof fn lemma_insert_fresh_dom(m: Map<Seq<char>, DataOpenState>, k: Seq<char>)
    requires
        m.dom().finite(),
        !m.dom().contains(k),
    ensures
        forall|v: DataOpenState| (#[trigger] m.insert(k, v)).dom().finite(),
        forall|v: DataOpenState| (#[trigger] m.insert(k, v)).dom().len() == m.dom().len() + 1,
{
    assert forall|v: DataOpenState| (#[trigger] m.insert(k, v)).dom().len() == m.dom().len()
        + 1 by {
        assert(m.insert(k, v).dom() =~= m.dom().insert(k));
    }
}

/// The MPT counterpart of `lemma_insert_fresh_dom`.
proof fn lemma_insert_fresh_dom_mpt(m: Map<Seq<char>, MptOpenState>, k: Seq<char>)
    requires
        m.dom().finite(),
        !m.dom().contains(k),
    ensures
        forall|v: MptOpenState| (#[trigger] m.insert(k, v)).dom().finite(),
        forall|v: MptOpenState| (#[trigger] m.insert(k, v)).dom().len() == m.dom().len() + 1,
{
    assert forall|v: MptOpenState| (#[trigger] m.insert(k, v)).dom().len() == m.dom().len()
        + 1 by {
        assert(m.insert(k, v).dom() =~= m.dom().insert(k));
    }
}

/// A map key that is present keeps the domain size when overwritten.
proof fn lemma_insert_same_key_dom(m: Map<Seq<char>, DataOpenState>, k: Seq<char>)
    requires
        m.dom().finite(),
        m.dom().contains(k),
    ensures
        forall|v: DataOpenState| (#[trigger] m.insert(k, v)).dom() =~= m.dom(),
        forall|v: DataOpenState| (#[trigger] m.insert(k, v)).dom().len() == m.dom().len(),
        forall|v: DataOpenState| (#[trigger] m.insert(k, v)).dom().finite(),
{
    assert forall|v: DataOpenState| (#[trigger] m.insert(k, v)).dom() =~= m.dom() by {}
    assert forall|v: DataOpenState| (#[trigger] m.insert(k, v)).dom().len() == m.dom().len() by {
        assert(m.insert(k, v).dom() =~= m.dom());
    }
}

/// The MPT counterpart of `lemma_insert_same_key_dom`.
proof fn lemma_insert_same_key_dom_mpt(m: Map<Seq<char>, MptOpenState>, k: Seq<char>)
    requires
        m.dom().finite(),
        m.dom().contains(k),
    ensures
        forall|v: MptOpenState| (#[trigger] m.insert(k, v)).dom() =~= m.dom(),
        forall|v: MptOpenState| (#[trigger] m.insert(k, v)).dom().len() == m.dom().len(),
        forall|v: MptOpenState| (#[trigger] m.insert(k, v)).dom().finite(),
{
    assert forall|v: MptOpenState| (#[trigger] m.insert(k, v)).dom() =~= m.dom() by {}
    assert forall|v: MptOpenState| (#[trigger] m.insert(k, v)).dom().len() == m.dom().len() by {
        assert(m.insert(k, v).dom() =~= m.dom());
    }
}

/// A map holding a key has at least one entry.
proof fn lemma_nonempty_dom(m: Map<Seq<char>, DataOpenState>, k: Seq<char>)
    requires
        m.dom().finite(),
        m.dom().contains(k),
    ensures
        m.dom().len() >= 1,
        m.remove(k).dom().len() == m.dom().len() - 1,
        m.remove(k).dom().finite(),
{
    if m.dom().len() == 0 {
        m.dom().lemma_len0_is_empty();
    }
}

/// The MPT counterpart of `lemma_nonempty_dom`.
proof fn lemma_nonempty_dom_mpt(m: Map<Seq<char>, MptOpenState>, k: Seq<char>)
    requires
        m.dom().finite(),
        m.dom().contains(k),
    ensures
        m.dom().len() >= 1,
        m.remove(k).dom().len() == m.dom().len() - 1,
        m.remove(k).dom().finite(),
{
    if m.dom().len() == 0 {
        m.dom().lemma_len0_is_empty();
    }
}

} // verus!
