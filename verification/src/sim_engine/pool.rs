use vstd::prelude::*;
use crate::errors::{ErrorReason, SlotUse, StratisError};
use crate::integrity::ValidatedIntegritySpec;
use crate::keys::{
    least_free, least_free_slot, lemma_least_free_unique, only_clevis_slot, only_key_slot,
    EncryptionInfo, InputEncryptionInfo, KeyDescription, MechanismView, OptionalTokenSlotInput,
    PoolEncryptionInfo, UnlockMechanism,
};
use crate::names::{is_absolute, name_error, name_violation, validate_name, validate_name_string};
use crate::outside::new_uuid_v4;
use crate::shared::{
    init_cache_idempotent_or_err, validate_paths, first_bad_spec, is_last_request, last_for_name, lemma_valid_entry_for,
    lemma_valid_entry_is_last, spec_error, spec_limit_of, spec_size_of, str_set, strs_distinct,
    validate_filesystem_size, validate_filesystem_size_specs, FsSpec, ValidFsSpec,
};
use crate::sim_engine::blockdev::{opt_str_view, SimDev};
use crate::sim_engine::shared::{convert_encryption_info, converted, reports};
use crate::sim_engine::filesystem::{limit_allows, FilesystemSave, SimFilesystem};
use crate::table::{has_name, names_unique, uuid_of_name, Table};
use crate::types::{
    BlockDevTier, Clevis, CreateAction, DeleteAction, DevUuid, EncryptedDevice, FilesystemUuid,
    Key, PropChangeAction, RegenAction, RenameAction, SetCreateAction, SetDeleteAction,
};
use crate::units::{Bytes, Sectors, EI, MI};

verus! {

/// How many filesystems a new pool may hold.
pub const DEFAULT_FS_LIMIT: u64 = 10;

/// How many random UUIDs are tried before giving up on finding an unused
/// one.
pub const UUID_ATTEMPTS: u32 = 8;

/// Which actions a pool currently permits.
#[derive(Debug, Clone, Copy, PartialEq, Eq, Structural)]
pub enum ActionAvailability {
    Full,
    NoRequests,
    NoPoolChanges,
}

/// What is recorded of a pool in its metadata.
#[derive(Debug, PartialEq, Eq)]
pub struct PoolSave {
    pub name: String,
    pub fs_limit: Option<u64>,
    pub enable_overprov: Option<bool>,
    pub integrity_spec: Option<ValidatedIntegritySpec>,
}

/// A simulated pool.
#[derive(Debug)]
pub struct SimPool {
    pub block_devs: Vec<(DevUuid, SimDev)>,
    pub cache_devs: Vec<(DevUuid, SimDev)>,
    pub filesystems: Table<SimFilesystem>,
    pub fs_limit: u64,
    pub enable_overprov: bool,
    pub encryption_info: Option<EncryptionInfo>,
    pub integrity_spec: ValidatedIntegritySpec,
}

/// The device nodes of a list of devices.
pub open spec fn devnodes(v: Seq<(DevUuid, SimDev)>) -> Seq<Seq<char>> {
    Seq::new(v.len(), |i: int| v[i].1.devnode@)
}

/// The set of device nodes of a list of devices.
pub open spec fn devnode_set(v: Seq<(DevUuid, SimDev)>) -> Set<Seq<char>> {
    Set::new(|s: Seq<char>| exists|i: int| 0 <= i < v.len() && v[i].1.devnode@ == s)
}

/// A list of devices whose device nodes are distinct has one device per
/// device node.
pub proof fn lemma_distinct_devnodes_len(v: Seq<(DevUuid, SimDev)>)
    requires
        forall|i: int, j: int| 0 <= i < v.len() && 0 <= j < v.len() && i != j ==> v[i].1.devnode@ != v[j].1.devnode@,
    ensures
        devnode_set(v).finite(),
        v.len() == devnode_set(v).len(),
{
    let w = v.map_values(|d: (DevUuid, SimDev)| d.1.devnode@);
    assert forall|i: int, j: int| 0 <= i < w.len() && 0 <= j < w.len() && i != j implies w[i] != w[j] by {}
    assert(w.no_duplicates());
    w.unique_seq_to_set();
    assert forall|x: Seq<char>| #[trigger] devnode_set(v).contains(x) <==> w.to_set().contains(x) by {
        if devnode_set(v).contains(x) {
            let i = choose|i: int| 0 <= i < v.len() && v[i].1.devnode@ == x;
            assert(w[i] == x);
        }
        if w.to_set().contains(x) {
            let i = choose|i: int| 0 <= i < w.len() && w[i] == x;
            assert(v[i].1.devnode@ == x);
        }
    }
    assert(w.to_set() =~= devnode_set(v));
    vstd::seq_lib::seq_to_set_is_finite(w);
}

/// Some request names a filesystem with a name that breaks the rules.
pub open spec fn bad_name_in(specs: Seq<FsSpec>) -> bool {
    exists|a: int| 0 <= a < specs.len() && name_error(#[trigger] specs[a].name@) is Some
}

/// Some request names an existing filesystem of another size.
pub open spec fn size_conflict_in(m: Map<u128, (Seq<char>, SimFilesystem)>, specs: Seq<FsSpec>) -> bool {
    exists|a: int|
        0 <= a < specs.len() && last_for_name(specs, a) && has_name(m, #[trigger] specs[a].name@)
            && m[uuid_of_name(m, specs[a].name@)].1.size != spec_size_of(specs[a])
}

/// Every request names the same filesystem.
pub open spec fn one_name(specs: Seq<FsSpec>) -> bool {
    forall|a: int, b: int| 0 <= a < specs.len() && 0 <= b < specs.len() ==> #[trigger] specs[a].name@ == #[trigger] specs[b].name@
}

/// Some request for a new filesystem has a limit below its size.
pub open spec fn limit_conflict_in(m: Map<u128, (Seq<char>, SimFilesystem)>, specs: Seq<FsSpec>) -> bool {
    exists|a: int|
        0 <= a < specs.len() && last_for_name(specs, a) && !has_name(m, #[trigger] specs[a].name@)
            && !limit_allows(spec_size_of(specs[a]), spec_limit_of(specs[a]))
}

/// Creating the filesystems listed in `created` turned the filesystems `old`
/// into `new`, as the requests `specs` asked: one new filesystem for each
/// name that was not there yet, with the size and limit of its last request.
pub open spec fn filesystems_created(
    old: Map<u128, (Seq<char>, SimFilesystem)>,
    new: Map<u128, (Seq<char>, SimFilesystem)>,
    specs: Seq<FsSpec>,
    created: Seq<(String, FilesystemUuid, Sectors)>,
) -> bool {
    &&& forall|k: int|
        0 <= k < created.len() ==> {
            let c = #[trigger] created[k];
            &&& !has_name(old, c.0@)
            &&& !old.dom().contains(c.1.0)
            &&& new.dom().contains(c.1.0)
            &&& new[c.1.0].0 == c.0@
            &&& new[c.1.0].1.size == c.2
            &&& new[c.1.0].1.origin is None
            &&& !new[c.1.0].1.merge_scheduled
            &&& is_last_request(specs, c.0@, c.2, new[c.1.0].1.size_limit)
        }
    &&& forall|k: int, l: int|
        0 <= k < created.len() && 0 <= l < created.len() && k != l ==> created[k].0@ != created[l].0@
    &&& forall|a: int|
        0 <= a < specs.len() ==> has_name(old, #[trigger] specs[a].name@) || exists|k: int|
            0 <= k < created.len() && created[k].0@ == specs[a].name@
    &&& forall|u: u128|
        #[trigger] new.dom().contains(u) <==> (old.dom().contains(u) || exists|k: int|
            0 <= k < created.len() && created[k].1.0 == u)
    &&& forall|u: u128| old.dom().contains(u) ==> #[trigger] new[u] == old[u]
}

/// At the start, `w` was a snapshot of `u`.
pub open spec fn snapshot_of(m0: Map<u128, (Seq<char>, SimFilesystem)>, w: u128, u: u128) -> bool {
    m0.dom().contains(w) && m0[w].1.origin == Some(FilesystemUuid(u))
}

/// The filesystems `m` after destroying `u`, if it is there: the filesystems
/// that were snapshots of `u` in `m0` take over its origin.
pub open spec fn destroy_one(
    m0: Map<u128, (Seq<char>, SimFilesystem)>,
    m: Map<u128, (Seq<char>, SimFilesystem)>,
    u: u128,
) -> Map<u128, (Seq<char>, SimFilesystem)> {
    if m.dom().contains(u) {
        Map::new(
            |w: u128| m.dom().contains(w) && w != u,
            |w: u128|
                if snapshot_of(m0, w, u) {
                    (m[w].0, SimFilesystem { origin: m[u].1.origin, ..m[w].1 })
                } else {
                    m[w]
                },
        )
    } else {
        m
    }
}

/// The filesystems after destroying those of `us` in turn, starting from `m0`.
pub open spec fn after_destroy(
    m0: Map<u128, (Seq<char>, SimFilesystem)>,
    us: Seq<FilesystemUuid>,
) -> Map<u128, (Seq<char>, SimFilesystem)>
    decreases us.len(),
{
    if us.len() == 0 {
        m0
    } else {
        destroy_one(m0, after_destroy(m0, us.drop_last()), us.last().0)
    }
}

/// The filesystems of `us` that were there to destroy when their turn came.
pub open spec fn destroy_removed(
    m0: Map<u128, (Seq<char>, SimFilesystem)>,
    us: Seq<FilesystemUuid>,
) -> Seq<FilesystemUuid>
    decreases us.len(),
{
    if us.len() == 0 {
        Seq::empty()
    } else if after_destroy(m0, us.drop_last()).dom().contains(us.last().0) {
        destroy_removed(m0, us.drop_last()).push(us.last())
    } else {
        destroy_removed(m0, us.drop_last())
    }
}

/// The snapshots whose origin changed when the filesystems of `us` were
/// destroyed in turn, each with its new origin.
pub open spec fn destroy_updates(
    m0: Map<u128, (Seq<char>, SimFilesystem)>,
    us: Seq<FilesystemUuid>,
) -> Set<(FilesystemUuid, Option<FilesystemUuid>)>
    decreases us.len(),
{
    if us.len() == 0 {
        Set::empty()
    } else {
        let m = after_destroy(m0, us.drop_last());
        let u = us.last().0;
        if m.dom().contains(u) {
            destroy_updates(m0, us.drop_last()).union(
                Set::new(
                    |p: (FilesystemUuid, Option<FilesystemUuid>)|
                        m.dom().contains(p.0.0) && p.0.0 != u && snapshot_of(m0, p.0.0, u) && p.1
                            == m[u].1.origin,
                ),
            )
        } else {
            destroy_updates(m0, us.drop_last())
        }
    }
}

/// Some filesystem scheduled to revert into its origin has one of `us` as
/// its origin.
pub open spec fn revert_scheduled_into(
    m0: Map<u128, (Seq<char>, SimFilesystem)>,
    us: Seq<FilesystemUuid>,
) -> bool {
    exists|w: u128|
        #[trigger] m0.dom().contains(w) && m0[w].1.merge_scheduled && (m0[w].1.origin matches Some(
            o,
        ) && us.contains(o))
}

/// What a request to bind a token slot comes to.
pub enum BindPlan {
    Unchanged,
    Refused(ErrorReason),
    Bind(u32),
}

/// What a request to unbind or rebind a token slot comes to.
pub enum SlotPlan {
    Unchanged,
    Refused(ErrorReason),
    Change(u32),
}

/// Binding the key description `kd` as `req` asks, given the bindings `m`.
pub open spec fn key_bind_plan(m: Map<u32, MechanismView>, req: OptionalTokenSlotInput, kd: Seq<char>) -> BindPlan {
    match req {
        OptionalTokenSlotInput::Slot(t) => if m.dom().contains(t) {
            match m[t] {
                MechanismView::KeyDesc(k) => if k == kd {
                    BindPlan::Unchanged
                } else {
                    BindPlan::Refused(ErrorReason::KeyBindingDiffers)
                },
                MechanismView::ClevisInfo(_, _) => BindPlan::Refused(ErrorReason::SlotBoundToClevis(SlotUse::Bind, t)),
            }
        } else {
            BindPlan::Bind(t)
        },
        OptionalTokenSlotInput::Free => if exists|s: u32| #[trigger] m.dom().contains(s) && m[s] == MechanismView::KeyDesc(kd) {
            BindPlan::Unchanged
        } else {
            BindPlan::Bind(least_free(m))
        },
        OptionalTokenSlotInput::Legacy => if exists|s: u32| only_key_slot(m, s) {
            let s = choose|s: u32| only_key_slot(m, s);
            if m[s] == MechanismView::KeyDesc(kd) {
                BindPlan::Unchanged
            } else {
                BindPlan::Refused(ErrorReason::KeyBindingDiffers)
            }
        } else {
            BindPlan::Bind(least_free(m))
        },
    }
}

/// Binding the Clevis pin `pin` with configuration `config` as `req` asks,
/// given the bindings `m`.
pub open spec fn clevis_bind_plan(
    m: Map<u32, MechanismView>,
    req: OptionalTokenSlotInput,
    pin: Seq<char>,
    config: Seq<char>,
) -> BindPlan {
    match req {
        OptionalTokenSlotInput::Slot(t) => if m.dom().contains(t) {
            match m[t] {
                MechanismView::KeyDesc(_) => BindPlan::Refused(ErrorReason::SlotBoundToKeyring(SlotUse::Bind, t)),
                MechanismView::ClevisInfo(p, c) => if p == pin && c == config {
                    BindPlan::Unchanged
                } else {
                    BindPlan::Refused(ErrorReason::ClevisBindingDiffers)
                },
            }
        } else {
            BindPlan::Bind(t)
        },
        OptionalTokenSlotInput::Free => BindPlan::Bind(least_free(m)),
        OptionalTokenSlotInput::Legacy => if exists|s: u32| only_clevis_slot(m, s) {
            let s = choose|s: u32| only_clevis_slot(m, s);
            if m[s] == MechanismView::ClevisInfo(pin, config) {
                BindPlan::Unchanged
            } else {
                BindPlan::Refused(ErrorReason::ClevisBindingDiffers)
            }
        } else {
            BindPlan::Bind(least_free(m))
        },
    }
}

/// The slot a request without a slot means: the single slot of its kind.
pub open spec fn slot_of_kind(m: Map<u32, MechanismView>, slot: Option<u32>, key: bool) -> Option<u32> {
    match slot {
        Some(t) => Some(t),
        None => if key {
            if exists|s: u32| only_key_slot(m, s) {
                Some(choose|s: u32| only_key_slot(m, s))
            } else {
                None
            }
        } else {
            if exists|s: u32| only_clevis_slot(m, s) {
                Some(choose|s: u32| only_clevis_slot(m, s))
            } else {
                None
            }
        },
    }
}

/// Whether a binding is of the other kind than the one asked for.
pub open spec fn other_kind(mech: MechanismView, key: bool) -> bool {
    if key {
        mech is ClevisInfo
    } else {
        mech is KeyDesc
    }
}

/// Unbinding a key description (`key`) or a Clevis binding (not `key`) from
/// `slot`, or from the single slot of that kind, given the bindings `m`.
pub open spec fn unbind_plan(m: Map<u32, MechanismView>, slot: Option<u32>, key: bool) -> SlotPlan {
    if m.dom().len() < 2 {
        SlotPlan::Refused(ErrorReason::LastUnlockMethod(key))
    } else {
        match slot_of_kind(m, slot, key) {
            Some(t) => if m.dom().contains(t) && other_kind(m[t], key) {
                SlotPlan::Refused(
                    if key {
                        ErrorReason::SlotBoundToClevis(SlotUse::Unbind, t)
                    } else {
                        ErrorReason::SlotBoundToKeyring(SlotUse::Unbind, t)
                    },
                )
            } else if m.dom().contains(t) {
                SlotPlan::Change(t)
            } else {
                SlotPlan::Unchanged
            },
            None => SlotPlan::Unchanged,
        }
    }
}

/// Rebinding `slot`, or the single key slot, to the key description `kd`,
/// given the bindings `m`.
pub open spec fn rebind_key_plan(m: Map<u32, MechanismView>, slot: Option<u32>, kd: Seq<char>) -> SlotPlan {
    match slot_of_kind(m, slot, true) {
        Some(t) => if m.dom().contains(t) {
            match m[t] {
                MechanismView::KeyDesc(k) => if k == kd {
                    SlotPlan::Unchanged
                } else {
                    SlotPlan::Change(t)
                },
                MechanismView::ClevisInfo(_, _) => SlotPlan::Refused(ErrorReason::SlotBoundToClevis(SlotUse::Rebind, t)),
            }
        } else {
            SlotPlan::Refused(ErrorReason::EmptySlot)
        },
        None => SlotPlan::Refused(ErrorReason::EmptySlot),
    }
}

impl SimPool {
    /// The pool's filesystems: name and state by UUID.
    pub open spec fn fs_map(&self) -> Map<u128, (Seq<char>, SimFilesystem)> {
        self.filesystems.map()
    }

    /// The pool is well formed.
    pub open spec fn wf(&self) -> bool {
        self.filesystems.wf()
    }

    /// The token slot bindings, when the pool is encrypted.
    pub open spec fn slots(&self) -> Option<Map<u32, MechanismView>> {
        match self.encryption_info {
            Some(ei) => Some(ei.slots()),
            None => None,
        }
    }

    /// A new pool over the distinct paths of `paths`, with a random UUID.
    pub fn new(
        paths: &Vec<String>,
        enc_info: Option<&EncryptionInfo>,
        integrity_spec: ValidatedIntegritySpec,
    ) -> (r: (u128, SimPool))
        ensures
            r.1.wf(),
            devnode_set(r.1.block_devs@) == str_set(paths@),
            forall|i: int, j: int|
                0 <= i < r.1.block_devs@.len() && 0 <= j < r.1.block_devs@.len() && i != j
                    ==> r.1.block_devs@[i].1.devnode@ != r.1.block_devs@[j].1.devnode@,
            r.1.cache_devs@.len() == 0,
            r.1.fs_map() == Map::<u128, (Seq<char>, SimFilesystem)>::empty(),
            r.1.fs_limit == DEFAULT_FS_LIMIT,
            r.1.enable_overprov,
            r.1.slots() == match enc_info {
                Some(ei) => Some(ei.slots()),
                None => None::<Map<u32, MechanismView>>,
            },
            r.1.integrity_spec == integrity_spec,
    {
        let none: Vec<(DevUuid, SimDev)> = Vec::new();
        let block_devs = new_devices(paths, &none);
        proof {
            assert(str_set(paths@).difference(devnode_set(none@)) =~= str_set(paths@));
        }
        let enc = match enc_info {
            Some(ei) => Some(ei.duplicate()),
            None => None,
        };
        (
            new_uuid_v4(),
            SimPool {
                block_devs,
                cache_devs: Vec::new(),
                filesystems: Table::new(),
                fs_limit: DEFAULT_FS_LIMIT,
                enable_overprov: true,
                encryption_info: enc,
                integrity_spec,
            },
        )
    }

    /// Whether the pool holds any filesystem.
    pub fn has_filesystems(&self) -> (r: bool)
        requires
            self.wf(),
        ensures
            r == (self.fs_map().dom().len() != 0),
    {
        !self.filesystems.is_empty()
    }

    /// Destroying a simulated pool always succeeds.
    pub fn destroy(&mut self) -> (r: Result<(), StratisError>)
        ensures
            r is Ok,
            *final(self) == *old(self),
    {
        Ok(())
    }

    /// Whether the pool has a cache.
    pub fn has_cache(&self) -> (r: bool)
        ensures
            r == (self.cache_devs@.len() > 0),
    {
        self.cache_devs.len() > 0
    }

    /// Whether the pool is encrypted.
    pub fn is_encrypted(&self) -> (r: bool)
        ensures
            r == self.encryption_info is Some,
    {
        self.encryption_info.is_some()
    }

    /// The encryption information of the pool.
    pub fn encryption_info(&self) -> (r: Option<&EncryptionInfo>)
        ensures
            r == match &self.encryption_info {
                Some(ei) => Some(ei),
                None => None::<&EncryptionInfo>,
            },
    {
        self.encryption_info.as_ref()
    }

    /// The encryption information summarised as for a pool of many devices.
    pub fn encryption_info_legacy(&self) -> (r: Option<PoolEncryptionInfo>)
        ensures
            self.encryption_info is None ==> r is None,
            self.encryption_info matches Some(ei) ==> (r matches Some(
                PoolEncryptionInfo::Consistent(e),
            ) && e.slots() == ei.slots()),
    {
        match &self.encryption_info {
            Some(ei) => Some(PoolEncryptionInfo::Consistent(ei.duplicate())),
            None => None,
        }
    }

    /// A simulated pool always permits every action.
    pub fn avail_actions(&self) -> (r: ActionAvailability)
        ensures
            r == ActionAvailability::Full,
    {
        ActionAvailability::Full
    }

    /// The most filesystems the pool may hold.
    pub fn fs_limit(&self) -> (r: u64)
        ensures
            r == self.fs_limit,
    {
        self.fs_limit
    }

    /// Raise the filesystem limit; refused unless it grows.
    pub fn set_fs_limit(&mut self, new_limit: u64) -> (r: Result<(), StratisError>)
        ensures
            new_limit <= old(self).fs_limit ==> r == Err::<(), StratisError>(
                StratisError::Msg(ErrorReason::FsLimitNotIncreased),
            ) && *final(self) == *old(self),
            new_limit > old(self).fs_limit ==> r is Ok && *final(self) == (SimPool {
                fs_limit: new_limit,
                ..*old(self)
            }),
    {
        if new_limit <= self.fs_limit {
            Err(StratisError::Msg(ErrorReason::FsLimitNotIncreased))
        } else {
            self.fs_limit = new_limit;
            Ok(())
        }
    }

    /// Whether over-provisioning is enabled.
    pub fn overprov_enabled(&self) -> (r: bool)
        ensures
            r == self.enable_overprov,
    {
        self.enable_overprov
    }

    /// Enable or disable over-provisioning.
    pub fn set_overprov_mode(&mut self, enabled: bool) -> (r: Result<(), StratisError>)
        ensures
            r is Ok,
            *final(self) == (SimPool { enable_overprov: enabled, ..*old(self) }),
    {
        self.enable_overprov = enabled;
        Ok(())
    }

    /// A simulated pool never runs out of space.
    pub fn out_of_alloc_space(&self) -> (r: bool)
        ensures
            !r,
    {
        false
    }

    /// A simulated pool is 1 EiB.
    pub fn total_physical_size(&self) -> (r: Sectors)
        ensures
            r.0 == EI,
    {
        Sectors(EI)
    }

    /// A simulated pool has 5 MiB sectors allocated.
    pub fn total_allocated_size(&self) -> (r: Sectors)
        ensures
            r.0 == 5 * MI,
    {
        Sectors(5 * MI)
    }

    /// A simulated pool uses no space.
    pub fn total_physical_used(&self) -> (r: Option<Sectors>)
        ensures
            r == Some(Sectors(0)),
    {
        Some(Sectors(0))
    }

    /// The metadata record of the pool under `name`.
    pub fn record(&self, name: &String) -> (r: PoolSave)
        ensures
            r.name@ == name@,
            r.fs_limit == Some(self.fs_limit),
            r.enable_overprov == Some(self.enable_overprov),
            r.integrity_spec == Some(self.integrity_spec),
    {
        PoolSave {
            name: name.clone(),
            fs_limit: Some(self.fs_limit),
            enable_overprov: Some(self.enable_overprov),
            integrity_spec: Some(self.integrity_spec),
        }
    }

    /// A UUID that no filesystem of the pool has and that is not in `taken`,
    /// if one was drawn. With no filesystem and nothing taken, the first
    /// UUID drawn is free, so one always comes back.
    pub fn fresh_fs_uuid(&self, taken: &Vec<u128>) -> (r: Option<u128>)
        requires
            self.wf(),
        ensures
            r matches Some(u) ==> !self.fs_map().dom().contains(u) && !taken@.contains(u),
            self.fs_map().dom().len() == 0 && taken@.len() == 0 ==> r is Some,
    {
        proof {
            self.filesystems.lemma_wf();
        }
        let mut tries: u32 = 0;
        while tries < UUID_ATTEMPTS
            invariant
                self.wf(),
                self.fs_map().dom().finite(),
                self.fs_map().dom().len() == 0 && taken@.len() == 0 ==> tries == 0,
            decreases UUID_ATTEMPTS - tries,
        {
            let u = new_uuid_v4();
            if !self.filesystems.contains_uuid(u) && !contains_u128(taken, u) {
                return Some(u);
            }
            proof {
                if self.fs_map().dom().len() == 0 {
                    assert(self.fs_map().dom().contains(u) || taken@.contains(u));
                    assert(taken@.len() > 0 || !self.fs_map().dom().contains(u));
                }
            }
            tries = tries + 1;
        }
        None
    }

    /// `n` distinct UUIDs that no filesystem of the pool has, if they were
    /// drawn. For a pool with no filesystem and at most one UUID asked for,
    /// they always are.
    pub fn fresh_fs_uuids(&self, n: usize) -> (r: Option<Vec<u128>>)
        requires
            self.wf(),
        ensures
            n == 0 ==> r is Some,
            n <= 1 && self.fs_map().dom().len() == 0 ==> r is Some,
            r matches Some(v) ==> {
                &&& v@.len() == n
                &&& forall|i: int| 0 <= i < v@.len() ==> !self.fs_map().dom().contains(#[trigger] v@[i])
                &&& forall|i: int, j: int| 0 <= i < v@.len() && 0 <= j < v@.len() && i != j ==> v@[i] != v@[j]
            },
    {
        let mut out: Vec<u128> = Vec::new();
        while out.len() < n
            invariant
                self.wf(),
                out@.len() <= n,
                forall|i: int| 0 <= i < out@.len() ==> !self.fs_map().dom().contains(#[trigger] out@[i]),
                forall|i: int, j: int| 0 <= i < out@.len() && 0 <= j < out@.len() && i != j ==> out@[i] != out@[j],
            decreases n - out@.len(),
        {
            match self.fresh_fs_uuid(&out) {
                Some(u) => {
                    let ghost before = out@;
                    out.push(u);
                    proof {
                        assert forall|i: int, j: int| 0 <= i < out@.len() && 0 <= j < out@.len() && i != j
                            implies out@[i] != out@[j] by {
                            if i == before.len() {
                                assert(before.contains(out@[j]));
                            } else if j == before.len() {
                                assert(before.contains(out@[i]));
                            }
                        }
                    }
                },
                None => {
                    return None;
                },
            }
        }
        Some(out)
    }

    /// The name and state of the filesystem with this UUID.
    pub fn get_filesystem(&self, uuid: FilesystemUuid) -> (r: Option<(&String, &SimFilesystem)>)
        requires
            self.wf(),
        ensures
            r is Some == self.fs_map().dom().contains(uuid.0),
            r matches Some((n, f)) ==> n@ == self.fs_map()[uuid.0].0 && *f == self.fs_map()[uuid.0].1,
    {
        self.filesystems.get_by_uuid(uuid.0)
    }

    /// The UUID and state of the filesystem with this name.
    pub fn get_filesystem_by_name(&self, name: &str) -> (r: Option<(FilesystemUuid, &SimFilesystem)>)
        requires
            self.wf(),
        ensures
            r is Some == has_name(self.fs_map(), name@),
            r matches Some((u, f)) ==> self.fs_map().dom().contains(u.0) && self.fs_map()[u.0].0
                == name@ && *f == self.fs_map()[u.0].1,
    {
        match self.filesystems.get_by_name(name) {
            Some((u, f)) => Some((FilesystemUuid(u), f)),
            None => None,
        }
    }

    /// Every filesystem with its name and UUID, each once.
    pub fn filesystems(&self) -> (r: Vec<(String, FilesystemUuid, &SimFilesystem)>)
        requires
            self.wf(),
        ensures
            forall|u: u128| #[trigger] self.fs_map().dom().contains(u) <==> exists|i: int|
                0 <= i < r@.len() && (#[trigger] r@[i]).1.0 == u,
            forall|i: int| 0 <= i < r@.len() ==> {
                let (n, u, f) = #[trigger] r@[i];
                &&& self.fs_map().dom().contains(u.0)
                &&& n@ == self.fs_map()[u.0].0
                &&& *f == self.fs_map()[u.0].1
            },
            forall|i: int, j: int| 0 <= i < r@.len() && 0 <= j < r@.len() && i != j ==> r@[i].1 != r@[j].1,
    {
        let uuids = self.filesystems.uuids();
        let mut r: Vec<(String, FilesystemUuid, &SimFilesystem)> = Vec::new();
        let mut i: usize = 0;
        while i < uuids.len()
            invariant
                self.wf(),
                i <= uuids@.len(),
                r@.len() == i,
                forall|u: u128| #[trigger] self.fs_map().dom().contains(u) <==> uuids@.contains(u),
                forall|a: int, b: int| 0 <= a < uuids@.len() && 0 <= b < uuids@.len() && a != b ==> uuids@[a] != uuids@[b],
                forall|k: int| 0 <= k < i ==> {
                    let (n, u, f) = #[trigger] r@[k];
                    &&& u.0 == uuids@[k]
                    &&& self.fs_map().dom().contains(u.0)
                    &&& n@ == self.fs_map()[u.0].0
                    &&& *f == self.fs_map()[u.0].1
                },
            decreases uuids@.len() - i,
        {
            let u = uuids[i];
            proof {
                assert(uuids@.contains(u));
            }
            match self.filesystems.get_by_uuid(u) {
                Some((n, f)) => {
                    r.push((n.clone(), FilesystemUuid(u), f));
                },
                None => {
                    proof {
                        assert(false);
                    }
                },
            }
            i = i + 1;
        }
        proof {
            assert forall|u: u128| #[trigger] self.fs_map().dom().contains(u) implies exists|k: int|
                0 <= k < r@.len() && (#[trigger] r@[k]).1.0 == u by {
                let k = choose|k: int| 0 <= k < uuids@.len() && uuids@[k] == u;
                assert(r@[k].1.0 == u);
            }
        }
        r
    }

    /// The UUIDs of all filesystems, each once.
    pub fn filesystem_uuids(&self) -> (r: Vec<u128>)
        requires
            self.wf(),
        ensures
            forall|u: u128| #[trigger] self.fs_map().dom().contains(u) <==> r@.contains(u),
            forall|i: int, j: int| 0 <= i < r@.len() && 0 <= j < r@.len() && i != j ==> r@[i] != r@[j],
    {
        self.filesystems.uuids()
    }

    /// Destroy the filesystems of `fs_uuids` in turn; a snapshot of one of
    /// them takes over the origin of the one destroyed. Refused, with nothing
    /// changed, while a snapshot of one of them is scheduled to revert.
    pub fn destroy_filesystems(&mut self, fs_uuids: &Vec<FilesystemUuid>) -> (r: Result<
        SetDeleteAction<FilesystemUuid, (FilesystemUuid, Option<FilesystemUuid>)>,
        StratisError,
    >)
        requires
            old(self).wf(),
        ensures
            final(self).wf(),
            final(self).block_devs == old(self).block_devs,
            final(self).cache_devs == old(self).cache_devs,
            final(self).encryption_info == old(self).encryption_info,
            final(self).fs_limit == old(self).fs_limit,
            revert_scheduled_into(old(self).fs_map(), fs_uuids@) ==> r == Err::<
                SetDeleteAction<FilesystemUuid, (FilesystemUuid, Option<FilesystemUuid>)>,
                StratisError,
            >(StratisError::Msg(ErrorReason::MergeScheduled)) && final(self).fs_map() == old(self).fs_map(),
            !revert_scheduled_into(old(self).fs_map(), fs_uuids@) ==> (r matches Ok(a) && {
                &&& final(self).fs_map() == after_destroy(old(self).fs_map(), fs_uuids@)
                &&& a.removed@ == destroy_removed(old(self).fs_map(), fs_uuids@)
                &&& forall|p: (FilesystemUuid, Option<FilesystemUuid>)|
                    #[trigger] a.updated@.contains(p) <==> destroy_updates(old(self).fs_map(), fs_uuids@).contains(p)
            }),
    {
        let ghost m0 = self.fs_map();
        let uuids = self.filesystems.uuids();
        let mut starts: Vec<(u128, Option<FilesystemUuid>)> = Vec::new();
        let mut i: usize = 0;
        while i < uuids.len()
            invariant
                self.wf(),
                self.fs_map() == m0,
                i <= uuids@.len(),
                starts@.len() == i,
                forall|w: u128| #[trigger] m0.dom().contains(w) <==> uuids@.contains(w),
                forall|k: int| 0 <= k < i ==> #[trigger] starts@[k] == (uuids@[k], m0[uuids@[k]].1.origin),
                forall|k: int|
                    0 <= k < i ==> !(m0[#[trigger] uuids@[k]].1.merge_scheduled && (m0[uuids@[k]].1.origin matches Some(
                        o,
                    ) && fs_uuids@.contains(o))),
            decreases uuids@.len() - i,
        {
            let (_, fs) = self.filesystems.get_by_uuid(uuids[i]).unwrap();
            proof {
                assert(uuids@.contains(uuids@[i as int]));
            }
            if fs.merge_scheduled {
                match fs.origin {
                    Some(o) => {
                        if contains_fs_uuid(fs_uuids, o) {
                            proof {
                                assert(m0.dom().contains(uuids@[i as int]));
                            }
                            return Err(StratisError::Msg(ErrorReason::MergeScheduled));
                        }
                    },
                    None => {},
                }
            }
            starts.push((uuids[i], fs.origin));
            i = i + 1;
        }
        proof {
            assert forall|w: u128| #[trigger] m0.dom().contains(w) implies !(m0[w].1.merge_scheduled && (m0[w].1.origin matches Some(
                o,
            ) && fs_uuids@.contains(o))) by {
                assert(uuids@.contains(w));
                let k = choose|k: int| 0 <= k < uuids@.len() && uuids@[k] == w;
            }
        }
        let mut removed: Vec<FilesystemUuid> = Vec::new();
        let mut updated: Vec<(FilesystemUuid, Option<FilesystemUuid>)> = Vec::new();
        let mut i: usize = 0;
        while i < fs_uuids.len()
            invariant
                self.wf(),
                self.block_devs == old(self).block_devs,
                self.cache_devs == old(self).cache_devs,
                self.encryption_info == old(self).encryption_info,
                self.fs_limit == old(self).fs_limit,
                m0 == old(self).fs_map(),
                i <= fs_uuids@.len(),
                starts@.len() == uuids@.len(),
                forall|w: u128| #[trigger] m0.dom().contains(w) <==> uuids@.contains(w),
                forall|k: int| 0 <= k < starts@.len() ==> #[trigger] starts@[k] == (uuids@[k], m0[uuids@[k]].1.origin),
                forall|a: int, b: int| 0 <= a < uuids@.len() && 0 <= b < uuids@.len() && a != b ==> uuids@[a] != uuids@[b],
                self.fs_map() == after_destroy(m0, fs_uuids@.take(i as int)),
                removed@ == destroy_removed(m0, fs_uuids@.take(i as int)),
                forall|p: (FilesystemUuid, Option<FilesystemUuid>)|
                    #[trigger] updated@.contains(p) <==> destroy_updates(m0, fs_uuids@.take(i as int)).contains(p),
            decreases fs_uuids@.len() - i,
        {
            let u = fs_uuids[i].0;
            let ghost m = self.fs_map();
            let ghost before_updated = updated@;
            proof {
                let t1 = fs_uuids@.take(i as int + 1);
                assert(t1.drop_last() =~= fs_uuids@.take(i as int));
                assert(t1.last() == fs_uuids@[i as int]);
            }
            match self.filesystems.remove_by_uuid(u) {
                Some((_, fs)) => {
                    removed.push(FilesystemUuid(u));
                    self.take_over_origin(&starts, &uuids, Ghost(m0), u, fs.origin, &mut updated);
                    proof {
                        assert(self.fs_map() =~= destroy_one(m0, m, u));
                        assert forall|p: (FilesystemUuid, Option<FilesystemUuid>)|
                            #[trigger] updated@.contains(p) <==> destroy_updates(m0, fs_uuids@.take(i as int + 1)).contains(p) by {
                            if before_updated.contains(p) {
                                assert(updated@.contains(p));
                            }
                        }
                    }
                },
                None => {
                    proof {
                        assert(self.fs_map() =~= m);
                    }
                },
            }
            i = i + 1;
        }
        proof {
            assert(fs_uuids@.take(fs_uuids@.len() as int) =~= fs_uuids@);
        }
        Ok(SetDeleteAction::new(removed, updated))
    }

    /// After `u` was removed with origin `o`, the filesystems that were its
    /// snapshots at the start take over `o`; each one changed is recorded
    /// in `updated`.
    fn take_over_origin(
        &mut self,
        starts: &Vec<(u128, Option<FilesystemUuid>)>,
        uuids: &Vec<u128>,
        Ghost(m0): Ghost<Map<u128, (Seq<char>, SimFilesystem)>>,
        u: u128,
        o: Option<FilesystemUuid>,
        updated: &mut Vec<(FilesystemUuid, Option<FilesystemUuid>)>,
    )
        requires
            old(self).wf(),
            starts@.len() == uuids@.len(),
            forall|w: u128| #[trigger] m0.dom().contains(w) <==> uuids@.contains(w),
            forall|k: int| 0 <= k < starts@.len() ==> #[trigger] starts@[k] == (uuids@[k], m0[uuids@[k]].1.origin),
            forall|a: int, b: int| 0 <= a < uuids@.len() && 0 <= b < uuids@.len() && a != b ==> uuids@[a] != uuids@[b],
            !old(self).fs_map().dom().contains(u),
        ensures
            final(self).wf(),
            final(self).block_devs == old(self).block_devs,
            final(self).cache_devs == old(self).cache_devs,
            final(self).encryption_info == old(self).encryption_info,
            final(self).fs_limit == old(self).fs_limit,
            final(self).fs_map() == Map::new(
                |w: u128| old(self).fs_map().dom().contains(w),
                |w: u128|
                    if snapshot_of(m0, w, u) {
                        (old(self).fs_map()[w].0, SimFilesystem { origin: o, ..old(self).fs_map()[w].1 })
                    } else {
                        old(self).fs_map()[w]
                    },
            ),
            forall|p: (FilesystemUuid, Option<FilesystemUuid>)|
                #[trigger] final(updated)@.contains(p) <==> (old(updated)@.contains(p) || (old(self).fs_map().dom().contains(p.0.0)
                    && snapshot_of(m0, p.0.0, u) && p.1 == o)),
    {
        let ghost m = self.fs_map();
        let mut k: usize = 0;
        while k < starts.len()
            invariant
                self.wf(),
                self.block_devs == old(self).block_devs,
                self.cache_devs == old(self).cache_devs,
                self.encryption_info == old(self).encryption_info,
                self.fs_limit == old(self).fs_limit,
                m == old(self).fs_map(),
                k <= starts@.len(),
                starts@.len() == uuids@.len(),
                forall|w: u128| #[trigger] m0.dom().contains(w) <==> uuids@.contains(w),
                forall|j: int| 0 <= j < starts@.len() ==> #[trigger] starts@[j] == (uuids@[j], m0[uuids@[j]].1.origin),
                forall|a: int, b: int| 0 <= a < uuids@.len() && 0 <= b < uuids@.len() && a != b ==> uuids@[a] != uuids@[b],
                forall|w: u128| #[trigger] self.fs_map().dom().contains(w) <==> m.dom().contains(w),
                forall|j: int|
                    0 <= j < k && m.dom().contains(#[trigger] uuids@[j]) ==> self.fs_map()[uuids@[j]] == if snapshot_of(
                        m0,
                        uuids@[j],
                        u,
                    ) {
                        (m[uuids@[j]].0, SimFilesystem { origin: o, ..m[uuids@[j]].1 })
                    } else {
                        m[uuids@[j]]
                    },
                forall|w: u128|
                    #[trigger] m.dom().contains(w) && (forall|j: int| 0 <= j < k ==> uuids@[j] != w) ==> self.fs_map()[w] == m[w],
                forall|p: (FilesystemUuid, Option<FilesystemUuid>)|
                    #[trigger] updated@.contains(p) <==> (old(updated)@.contains(p) || (p.1 == o && exists|j: int|
                        0 <= j < k && uuids@[j] == p.0.0 && m.dom().contains(p.0.0) && snapshot_of(m0, p.0.0, u))),
            decreases starts@.len() - k,
        {
            let w = starts[k].0;
            let is_snapshot = match starts[k].1 {
                Some(x) => x.0 == u,
                None => false,
            };
            proof {
                assert(starts@[k as int] == (uuids@[k as int], m0[uuids@[k as int]].1.origin));
                assert(uuids@.contains(w));
                assert(is_snapshot == snapshot_of(m0, w, u));
            }
            let ghost before = self.fs_map();
            let ghost before_updated = updated@;
            if is_snapshot {
                match self.filesystems.get_mut_by_uuid(w) {
                    Some(fs) => {
                        fs.set_origin(o);
                        updated.push((FilesystemUuid(w), o));
                    },
                    None => {},
                }
            }
            proof {
                assert forall|j: int|
                    0 <= j < k + 1 && m.dom().contains(#[trigger] uuids@[j]) implies self.fs_map()[uuids@[j]] == if snapshot_of(
                        m0,
                        uuids@[j],
                        u,
                    ) {
                        (m[uuids@[j]].0, SimFilesystem { origin: o, ..m[uuids@[j]].1 })
                    } else {
                        m[uuids@[j]]
                    } by {
                    if j < k {
                        assert(uuids@[j] != uuids@[k as int]);
                    } else {
                        if !is_snapshot {
                            assert(forall|jj: int| 0 <= jj < k ==> uuids@[jj] != w);
                        } else {
                            assert(forall|jj: int| 0 <= jj < k ==> uuids@[jj] != w);
                            assert(before[w] == m[w]);
                        }
                    }
                }
                assert forall|x: u128|
                    #[trigger] m.dom().contains(x) && (forall|j: int| 0 <= j < k + 1 ==> uuids@[j] != x) implies self.fs_map()[x] == m[x] by {
                    assert(forall|j: int| 0 <= j < k ==> uuids@[j] != x);
                    assert(uuids@[k as int] != x);
                }
                assert forall|p: (FilesystemUuid, Option<FilesystemUuid>)|
                    #[trigger] updated@.contains(p) <==> (old(updated)@.contains(p) || (p.1 == o && exists|j: int|
                        0 <= j < k + 1 && uuids@[j] == p.0.0 && m.dom().contains(p.0.0) && snapshot_of(m0, p.0.0, u))) by {
                    if updated@.contains(p) && !before_updated.contains(p) {
                        assert(p == (FilesystemUuid(w), o));
                        assert(uuids@[k as int] == p.0.0);
                    }
                    if p.1 == o && exists|j: int|
                        0 <= j < k + 1 && uuids@[j] == p.0.0 && m.dom().contains(p.0.0) && snapshot_of(m0, p.0.0, u) {
                        let j = choose|j: int|
                            0 <= j < k + 1 && uuids@[j] == p.0.0 && m.dom().contains(p.0.0) && snapshot_of(m0, p.0.0, u);
                        if j == k {
                            assert(before.dom().contains(w));
                            assert(updated@.last() == (FilesystemUuid(w), o));
                            assert(p == (FilesystemUuid(w), o));
                        } else {
                            assert(before_updated.contains(p));
                        }
                    }
                    if before_updated.contains(p) {
                        let q = choose|q: int| 0 <= q < before_updated.len() && before_updated[q] == p;
                        assert(updated@[q] == before_updated[q]);
                    }
                }
            }
            k = k + 1;
        }
        proof {
            let target = Map::new(
                |w: u128| m.dom().contains(w),
                |w: u128|
                    if snapshot_of(m0, w, u) {
                        (m[w].0, SimFilesystem { origin: o, ..m[w].1 })
                    } else {
                        m[w]
                    },
            );
            assert forall|w: u128| #[trigger] m.dom().contains(w) implies self.fs_map()[w] == target[w] by {
                if m0.dom().contains(w) {
                    assert(uuids@.contains(w));
                    let j = choose|j: int| 0 <= j < uuids@.len() && uuids@[j] == w;
                } else {
                    if exists|j: int| 0 <= j < k && uuids@[j] == w {
                        let j = choose|j: int| 0 <= j < k && uuids@[j] == w;
                        assert(uuids@.contains(w));
                    }
                }
            }
            assert(self.fs_map() =~= target);
            assert forall|p: (FilesystemUuid, Option<FilesystemUuid>)|
                #[trigger] updated@.contains(p) <==> (old(updated)@.contains(p) || (m.dom().contains(p.0.0)
                    && snapshot_of(m0, p.0.0, u) && p.1 == o)) by {
                if m.dom().contains(p.0.0) && snapshot_of(m0, p.0.0, u) && p.1 == o {
                    assert(uuids@.contains(p.0.0));
                    let j = choose|j: int| 0 <= j < uuids@.len() && uuids@[j] == p.0.0;
                }
            }
        }
    }

    /// The devices of a tier.
    pub open spec fn tier_devs(&self, tier: BlockDevTier) -> Seq<(DevUuid, SimDev)> {
        match tier {
            BlockDevTier::Data => self.block_devs@,
            BlockDevTier::Cache => self.cache_devs@,
        }
    }

    /// Set up a cache on the devices at `blockdevs`. When the pool has a
    /// cache already, the request is an idempotent repeat if it names exactly
    /// the cache's devices and an error otherwise.
    pub fn init_cache(&mut self, blockdevs: &Vec<String>, supports_encrypted: bool) -> (r: Result<
        SetCreateAction<DevUuid>,
        StratisError,
    >)
        ensures
            !all_absolute(blockdevs@) ==> r matches Err(StratisError::PathsNotAbsolute(_)),
            all_absolute(blockdevs@) && old(self).encryption_info is Some && !supports_encrypted ==> r
                == Err::<SetCreateAction<DevUuid>, StratisError>(StratisError::Msg(ErrorReason::CacheWithEncryption)),
            r is Err ==> *final(self) == *old(self),
            all_absolute(blockdevs@) && !(old(self).encryption_info is Some && !supports_encrypted) ==> {
                if old(self).cache_devs@.len() == 0 {
                    if blockdevs@.len() == 0 {
                        r == Err::<SetCreateAction<DevUuid>, StratisError>(StratisError::Msg(ErrorReason::NoDevicesForCache))
                    } else {
                        r matches Ok(a) && {
                            &&& final(self).cache_devs@.len() == blockdevs@.len()
                            &&& forall|k: int| 0 <= k < blockdevs@.len() ==> (#[trigger] final(self).cache_devs@[k]).1.devnode@
                                == blockdevs@[k]@ && final(self).cache_devs@[k].1.user_info is None
                            &&& a.changed@ == Seq::new(final(self).cache_devs@.len(), |k: int| final(self).cache_devs@[k].0)
                            &&& *final(self) == (SimPool { cache_devs: final(self).cache_devs, ..*old(self) })
                        }
                    }
                } else {
                    &&& *final(self) == *old(self)
                    &&& str_set(blockdevs@) == devnode_set(old(self).cache_devs@) ==> (r matches Ok(a) && a.changed@.len() == 0)
                    &&& str_set(blockdevs@) != devnode_set(old(self).cache_devs@) ==> (r matches Err(
                        StratisError::CacheDevicesDiffer(in_input, in_pool),
                    ) && str_set(in_input@) == str_set(blockdevs@).difference(devnode_set(old(self).cache_devs@))
                        && str_set(in_pool@) == devnode_set(old(self).cache_devs@).difference(str_set(blockdevs@)))
                }
            },
    {
        match validate_paths(blockdevs) {
            Err(e) => {
                return Err(e);
            },
            Ok(()) => {},
        }
        if self.is_encrypted() && !supports_encrypted {
            return Err(StratisError::Msg(ErrorReason::CacheWithEncryption));
        }
        if !self.has_cache() {
            if blockdevs.len() == 0 {
                return Err(StratisError::Msg(ErrorReason::NoDevicesForCache));
            }
            let mut ids: Vec<DevUuid> = Vec::new();
            let mut i: usize = 0;
            while i < blockdevs.len()
                invariant
                    i <= blockdevs@.len(),
                    self.cache_devs@.len() == i,
                    ids@.len() == i,
                    *self == (SimPool { cache_devs: self.cache_devs, ..*old(self) }),
                    forall|k: int| 0 <= k < i ==> (#[trigger] self.cache_devs@[k]).1.devnode@ == blockdevs@[k]@
                        && self.cache_devs@[k].1.user_info is None && ids@[k] == self.cache_devs@[k].0,
                decreases blockdevs@.len() - i,
            {
                let (id, dev) = SimDev::new(&blockdevs[i]);
                ids.push(id);
                self.cache_devs.push((id, dev));
                i = i + 1;
            }
            proof {
                assert(ids@ =~= Seq::new(self.cache_devs@.len(), |k: int| self.cache_devs@[k].0));
            }
            Ok(SetCreateAction::new(ids))
        } else {
            let existing = devnode_list(&self.cache_devs);
            init_cache_idempotent_or_err(blockdevs, &existing)
        }
    }

    /// Add the devices at `paths` to a tier; a path that a device of the tier
    /// is at already, or that occurs again, adds nothing. Refused for the
    /// cache tier of a pool without a cache.
    pub fn add_blockdevs(&mut self, paths: &Vec<String>, tier: BlockDevTier) -> (r: Result<
        SetCreateAction<DevUuid>,
        StratisError,
    >)
        ensures
            !all_absolute(paths@) ==> r matches Err(StratisError::PathsNotAbsolute(_)),
            all_absolute(paths@) && tier == BlockDevTier::Cache && old(self).cache_devs@.len() == 0 ==> r == Err::<
                SetCreateAction<DevUuid>,
                StratisError,
            >(StratisError::Msg(ErrorReason::CacheNotInitialized)),
            r is Err ==> *final(self) == *old(self),
            all_absolute(paths@) && !(tier == BlockDevTier::Cache && old(self).cache_devs@.len() == 0) ==> (r matches Ok(a) && {
                let before = old(self).tier_devs(tier);
                let after = final(self).tier_devs(tier);
                let added = after.skip(before.len() as int);
                &&& after.len() >= before.len()
                &&& after.take(before.len() as int) == before
                &&& devnode_set(added) == str_set(paths@).difference(devnode_set(before))
                &&& forall|i: int, j: int| 0 <= i < added.len() && 0 <= j < added.len() && i != j ==> added[i].1.devnode@ != added[j].1.devnode@
                &&& forall|i: int| 0 <= i < added.len() ==> (#[trigger] added[i]).1.user_info is None
                &&& a.changed@ == Seq::new(added.len(), |k: int| added[k].0)
                &&& tier == BlockDevTier::Data ==> *final(self) == (SimPool { block_devs: final(self).block_devs, ..*old(self) })
                &&& tier == BlockDevTier::Cache ==> *final(self) == (SimPool { cache_devs: final(self).cache_devs, ..*old(self) })
            }),
    {
        match validate_paths(paths) {
            Err(e) => {
                return Err(e);
            },
            Ok(()) => {},
        }
        let is_cache = match tier {
            BlockDevTier::Cache => true,
            BlockDevTier::Data => false,
        };
        if is_cache && !self.has_cache() {
            return Err(StratisError::Msg(ErrorReason::CacheNotInitialized));
        }
        let mut added = if is_cache {
            new_devices(paths, &self.cache_devs)
        } else {
            new_devices(paths, &self.block_devs)
        };
        let ghost new_devs = added@;
        let mut ids: Vec<DevUuid> = Vec::new();
        let mut i: usize = 0;
        while i < added.len()
            invariant
                i <= added@.len(),
                ids@.len() == i,
                forall|k: int| 0 <= k < i ==> ids@[k] == #[trigger] added@[k].0,
            decreases added@.len() - i,
        {
            ids.push(added[i].0);
            i = i + 1;
        }
        if is_cache {
            self.cache_devs.append(&mut added);
        } else {
            self.block_devs.append(&mut added);
        }
        proof {
            let before = old(self).tier_devs(tier);
            assert(self.tier_devs(tier) == before + new_devs);
            assert(self.tier_devs(tier).skip(before.len() as int) =~= new_devs);
            assert(self.tier_devs(tier).take(before.len() as int) =~= before);
            assert(ids@ =~= Seq::new(new_devs.len(), |k: int| new_devs[k].0));
        }
        Ok(SetCreateAction::new(ids))
    }

    /// The pool's devices with their tiers: the data devices, then the cache
    /// devices.
    pub fn blockdevs(&self) -> (r: Vec<(DevUuid, BlockDevTier, &SimDev)>)
        ensures
            r@.len() == self.block_devs@.len() + self.cache_devs@.len(),
            forall|k: int| 0 <= k < self.block_devs@.len() ==> #[trigger] r@[k] == (self.block_devs@[k].0, BlockDevTier::Data, &self.block_devs@[k].1),
            forall|k: int| 0 <= k < self.cache_devs@.len() ==> #[trigger] r@[self.block_devs@.len() + k] == (self.cache_devs@[k].0, BlockDevTier::Cache, &self.cache_devs@[k].1),
    {
        let mut r: Vec<(DevUuid, BlockDevTier, &SimDev)> = Vec::new();
        let mut i: usize = 0;
        while i < self.block_devs.len()
            invariant
                i <= self.block_devs@.len(),
                r@.len() == i,
                forall|k: int| 0 <= k < i ==> #[trigger] r@[k] == (self.block_devs@[k].0, BlockDevTier::Data, &self.block_devs@[k].1),
            decreases self.block_devs@.len() - i,
        {
            r.push((self.block_devs[i].0, BlockDevTier::Data, &self.block_devs[i].1));
            i = i + 1;
        }
        let mut j: usize = 0;
        while j < self.cache_devs.len()
            invariant
                j <= self.cache_devs@.len(),
                r@.len() == self.block_devs@.len() + j,
                forall|k: int| 0 <= k < self.block_devs@.len() ==> #[trigger] r@[k] == (self.block_devs@[k].0, BlockDevTier::Data, &self.block_devs@[k].1),
                forall|k: int| 0 <= k < j ==> #[trigger] r@[self.block_devs@.len() + k] == (self.cache_devs@[k].0, BlockDevTier::Cache, &self.cache_devs@[k].1),
            decreases self.cache_devs@.len() - j,
        {
            r.push((self.cache_devs[j].0, BlockDevTier::Cache, &self.cache_devs[j].1));
            j = j + 1;
        }
        r
    }

    /// The tier and state of the device with this UUID: the first data
    /// device with it, else the first cache device with it.
    pub fn get_blockdev(&self, uuid: DevUuid) -> (r: Option<(BlockDevTier, &SimDev)>)
        ensures
            r is Some <==> (has_dev(self.block_devs@, uuid) || has_dev(self.cache_devs@, uuid)),
            r matches Some((t, d)) ==> (has_dev(self.block_devs@, uuid) ==> t == BlockDevTier::Data && *d == self.block_devs@[first_dev(self.block_devs@, uuid)].1)
                && (!has_dev(self.block_devs@, uuid) ==> t == BlockDevTier::Cache && *d == self.cache_devs@[first_dev(self.cache_devs@, uuid)].1),
    {
        match find_dev(&self.block_devs, uuid) {
            Some(i) => Some((BlockDevTier::Data, &self.block_devs[i].1)),
            None => match find_dev(&self.cache_devs, uuid) {
                Some(i) => Some((BlockDevTier::Cache, &self.cache_devs[i].1)),
                None => None,
            },
        }
    }

    /// Set or unset the user information of a device; the information must
    /// be a valid name.
    pub fn set_blockdev_user_info(&mut self, uuid: DevUuid, user_info: Option<&str>) -> (r: Result<
        RenameAction<DevUuid>,
        StratisError,
    >)
        ensures
            user_info matches Some(u) && name_violation(u@, u.len() as nat) is Some ==> (r matches Err(
                StratisError::InvalidName(w, n),
            ) && w == name_violation(user_info->0@, user_info->0.len() as nat)->0 && n@ == user_info->0@)
                && *final(self) == *old(self),
            !(user_info matches Some(u) && name_violation(u@, u.len() as nat) is Some) ==> {
                let info = match user_info {
                    Some(u) => Some(u@),
                    None => None::<Seq<char>>,
                };
                if has_dev(old(self).block_devs@, uuid) {
                    let k = first_dev(old(self).block_devs@, uuid);
                    let d = old(self).block_devs@[k].1;
                    &&& r == Ok::<RenameAction<DevUuid>, StratisError>(
                        if opt_str_view(d.user_info) == info { RenameAction::Identity } else { RenameAction::Renamed(uuid) },
                    )
                    &&& final(self).block_devs@.len() == old(self).block_devs@.len()
                    &&& forall|j: int| 0 <= j < old(self).block_devs@.len() && j != k ==> #[trigger] final(self).block_devs@[j] == old(self).block_devs@[j]
                    &&& final(self).block_devs@[k].0 == uuid
                    &&& dev_with_info(final(self).block_devs@[k].1, d, info)
                    &&& *final(self) == (SimPool { block_devs: final(self).block_devs, ..*old(self) })
                } else if has_dev(old(self).cache_devs@, uuid) {
                    let k = first_dev(old(self).cache_devs@, uuid);
                    let d = old(self).cache_devs@[k].1;
                    &&& r == Ok::<RenameAction<DevUuid>, StratisError>(
                        if opt_str_view(d.user_info) == info { RenameAction::Identity } else { RenameAction::Renamed(uuid) },
                    )
                    &&& final(self).cache_devs@.len() == old(self).cache_devs@.len()
                    &&& forall|j: int| 0 <= j < old(self).cache_devs@.len() && j != k ==> #[trigger] final(self).cache_devs@[j] == old(self).cache_devs@[j]
                    &&& final(self).cache_devs@[k].0 == uuid
                    &&& dev_with_info(final(self).cache_devs@[k].1, d, info)
                    &&& *final(self) == (SimPool { cache_devs: final(self).cache_devs, ..*old(self) })
                } else {
                    r == Ok::<RenameAction<DevUuid>, StratisError>(RenameAction::NoSource) && *final(self) == *old(self)
                }
            },
    {
        match user_info {
            Some(u) => match validate_name(u) {
                Err(e) => {
                    return Err(e);
                },
                Ok(()) => {},
            },
            None => {},
        }
        match find_dev(&self.block_devs, uuid) {
            Some(k) => {
                let changed = set_dev_info(&mut self.block_devs, k, user_info);
                return Ok(if changed { RenameAction::Renamed(uuid) } else { RenameAction::Identity });
            },
            None => {},
        }
        match find_dev(&self.cache_devs, uuid) {
            Some(k) => {
                let changed = set_dev_info(&mut self.cache_devs, k, user_info);
                Ok(if changed { RenameAction::Renamed(uuid) } else { RenameAction::Identity })
            },
            None => Ok(RenameAction::NoSource),
        }
    }

    /// Bind a token slot to a key description in the kernel keyring.
    pub fn bind_keyring(&mut self, token_slot: OptionalTokenSlotInput, key_description: &KeyDescription) -> (r: Result<
        CreateAction<(Key, u32)>,
        StratisError,
    >)
        requires
            old(self).encryption_info matches Some(ei) ==> ei.slots().dom().len() < u32::MAX,
        ensures
            old(self).encryption_info is None ==> r == Err::<CreateAction<(Key, u32)>, StratisError>(
                StratisError::Msg(ErrorReason::PoolNotEncrypted),
            ) && *final(self) == *old(self),
            old(self).encryption_info matches Some(ei) ==> match key_bind_plan(ei.slots(), token_slot, key_description@) {
                BindPlan::Unchanged => r == Ok::<CreateAction<(Key, u32)>, StratisError>(CreateAction::Identity)
                    && *final(self) == *old(self),
                BindPlan::Refused(e) => r == Err::<CreateAction<(Key, u32)>, StratisError>(StratisError::Msg(e))
                    && *final(self) == *old(self),
                BindPlan::Bind(s) => r == Ok::<CreateAction<(Key, u32)>, StratisError>(CreateAction::Created((Key, s)))
                    && final(self).slots() == Some(ei.slots().insert(s, MechanismView::KeyDesc(key_description@)))
                    && *final(self) == (SimPool { encryption_info: final(self).encryption_info, ..*old(self) }),
            },
    {
        let ei = match &mut self.encryption_info {
            Some(ei) => ei,
            None => {
                return Err(StratisError::Msg(ErrorReason::PoolNotEncrypted));
            },
        };
        let slot = match token_slot {
            OptionalTokenSlotInput::Slot(t) => match ei.get_info(t) {
                Some(UnlockMechanism::KeyDesc(kd)) => {
                    if kd.same_as(key_description) {
                        return Ok(CreateAction::Identity);
                    } else {
                        return Err(StratisError::Msg(ErrorReason::KeyBindingDiffers));
                    }
                },
                Some(UnlockMechanism::ClevisInfo(_, _)) => {
                    return Err(StratisError::Msg(ErrorReason::SlotBoundToClevis(SlotUse::Bind, t)));
                },
                None => t,
            },
            OptionalTokenSlotInput::Free => {
                if ei.has_key_description(key_description) {
                    return Ok(CreateAction::Identity);
                }
                let s = ei.free_token_slot();
                proof {
                    lemma_least_free_unique(ei.slots(), s);
                }
                s
            },
            OptionalTokenSlotInput::Legacy => match ei.single_key_description() {
                Some((_, kd)) => {
                    if kd.same_as(key_description) {
                        return Ok(CreateAction::Identity);
                    } else {
                        return Err(StratisError::Msg(ErrorReason::KeyBindingDiffers));
                    }
                },
                None => {
                    let s = ei.free_token_slot();
                    proof {
                        lemma_least_free_unique(ei.slots(), s);
                    }
                    s
                },
            },
        };
        match ei.add_info(slot, UnlockMechanism::KeyDesc(key_description.duplicate())) {
            Ok(()) => Ok(CreateAction::Created((Key, slot))),
            Err(e) => Err(e),
        }
    }

    /// Bind a token slot to a Clevis pin with its configuration.
    pub fn bind_clevis(&mut self, token_slot: OptionalTokenSlotInput, pin: &String, clevis_info: &String) -> (r: Result<
        CreateAction<(Clevis, u32)>,
        StratisError,
    >)
        requires
            old(self).encryption_info matches Some(ei) ==> ei.slots().dom().len() < u32::MAX,
        ensures
            old(self).encryption_info is None ==> r == Err::<CreateAction<(Clevis, u32)>, StratisError>(
                StratisError::Msg(ErrorReason::PoolNotEncrypted),
            ) && *final(self) == *old(self),
            old(self).encryption_info matches Some(ei) ==> match clevis_bind_plan(ei.slots(), token_slot, pin@, clevis_info@) {
                BindPlan::Unchanged => r == Ok::<CreateAction<(Clevis, u32)>, StratisError>(CreateAction::Identity)
                    && *final(self) == *old(self),
                BindPlan::Refused(e) => r == Err::<CreateAction<(Clevis, u32)>, StratisError>(StratisError::Msg(e))
                    && *final(self) == *old(self),
                BindPlan::Bind(s) => r == Ok::<CreateAction<(Clevis, u32)>, StratisError>(CreateAction::Created((Clevis, s)))
                    && final(self).slots() == Some(ei.slots().insert(s, MechanismView::ClevisInfo(pin@, clevis_info@)))
                    && *final(self) == (SimPool { encryption_info: final(self).encryption_info, ..*old(self) }),
            },
    {
        let ei = match &mut self.encryption_info {
            Some(ei) => ei,
            None => {
                return Err(StratisError::Msg(ErrorReason::PoolNotEncrypted));
            },
        };
        let slot = match token_slot {
            OptionalTokenSlotInput::Slot(t) => match ei.get_info(t) {
                Some(UnlockMechanism::KeyDesc(_)) => {
                    return Err(StratisError::Msg(ErrorReason::SlotBoundToKeyring(SlotUse::Bind, t)));
                },
                Some(UnlockMechanism::ClevisInfo(p, c)) => {
                    if p.eq(pin) && c.eq(clevis_info) {
                        return Ok(CreateAction::Identity);
                    } else {
                        return Err(StratisError::Msg(ErrorReason::ClevisBindingDiffers));
                    }
                },
                None => t,
            },
            OptionalTokenSlotInput::Free => {
                let s = ei.free_token_slot();
                proof {
                    lemma_least_free_unique(ei.slots(), s);
                }
                s
            },
            OptionalTokenSlotInput::Legacy => match ei.single_clevis_info() {
                Some((_, p, c)) => {
                    if p.eq(pin) && c.eq(clevis_info) {
                        return Ok(CreateAction::Identity);
                    } else {
                        return Err(StratisError::Msg(ErrorReason::ClevisBindingDiffers));
                    }
                },
                None => {
                    let s = ei.free_token_slot();
                    proof {
                        lemma_least_free_unique(ei.slots(), s);
                    }
                    s
                },
            },
        };
        match ei.add_info(slot, UnlockMechanism::ClevisInfo(pin.clone(), clevis_info.clone())) {
            Ok(()) => Ok(CreateAction::Created((Clevis, slot))),
            Err(e) => Err(e),
        }
    }

    /// The slot a request without a slot means, and what is bound there.
    fn resolve_slot(ei: &EncryptionInfo, slot: Option<u32>, key: bool) -> (r: Option<(u32, Option<&UnlockMechanism>)>)
        ensures
            r is Some <==> slot_of_kind(ei.slots(), slot, key) is Some,
            r matches Some((t, m)) ==> slot_of_kind(ei.slots(), slot, key) == Some(t) && (m is Some
                == ei.slots().dom().contains(t)) && (m matches Some(mm) ==> mm@ == ei.slots()[t]),
    {
        let t = match slot {
            Some(t) => t,
            None => if key {
                match ei.single_key_description() {
                    Some((t, _)) => {
                        proof {
                            let c = choose|s: u32| only_key_slot(ei.slots(), s);
                            assert(only_key_slot(ei.slots(), c));
                        }
                        t
                    },
                    None => {
                        return None;
                    },
                }
            } else {
                match ei.single_clevis_info() {
                    Some((t, _, _)) => {
                        proof {
                            let c = choose|s: u32| only_clevis_slot(ei.slots(), s);
                            assert(only_clevis_slot(ei.slots(), c));
                        }
                        t
                    },
                    None => {
                        return None;
                    },
                }
            },
        };
        Some((t, ei.get_info(t)))
    }

    /// Unbind a key description (`key`) or a Clevis binding (not `key`) from
    /// `token_slot`, or from the single slot of that kind.
    fn unbind(&mut self, token_slot: Option<u32>, key: bool) -> (r: Result<bool, StratisError>)
        ensures
            old(self).encryption_info is None ==> r == Err::<bool, StratisError>(
                StratisError::Msg(ErrorReason::PoolNotEncrypted),
            ) && *final(self) == *old(self),
            old(self).encryption_info matches Some(ei) ==> match unbind_plan(ei.slots(), token_slot, key) {
                SlotPlan::Unchanged => r == Ok::<bool, StratisError>(false) && *final(self) == *old(self),
                SlotPlan::Refused(e) => r == Err::<bool, StratisError>(StratisError::Msg(e)) && *final(self) == *old(self),
                SlotPlan::Change(t) => r == Ok::<bool, StratisError>(true)
                    && final(self).slots() == Some(ei.slots().remove(t))
                    && *final(self) == (SimPool { encryption_info: final(self).encryption_info, ..*old(self) }),
            },
    {
        let ei = match &mut self.encryption_info {
            Some(ei) => ei,
            None => {
                return Err(StratisError::Msg(ErrorReason::PoolNotEncrypted));
            },
        };
        if ei.num_slots() < 2 {
            return Err(StratisError::Msg(ErrorReason::LastUnlockMethod(key)));
        }
        let t = match Self::resolve_slot(ei, token_slot, key) {
            None => {
                return Ok(false);
            },
            Some((t, mech)) => {
                let wrong = match mech {
                    Some(UnlockMechanism::KeyDesc(_)) => !key,
                    Some(UnlockMechanism::ClevisInfo(_, _)) => key,
                    None => {
                        return Ok(false);
                    },
                };
                if wrong {
                    return Err(
                        StratisError::Msg(
                            if key {
                                ErrorReason::SlotBoundToClevis(SlotUse::Unbind, t)
                            } else {
                                ErrorReason::SlotBoundToKeyring(SlotUse::Unbind, t)
                            },
                        ),
                    );
                }
                t
            },
        };
        Ok(ei.remove(t))
    }

    /// Unbind a key description from `token_slot`, or from the single slot
    /// bound to one; refused when it is the last unlock method.
    pub fn unbind_keyring(&mut self, token_slot: Option<u32>) -> (r: Result<DeleteAction<Key>, StratisError>)
        ensures
            old(self).encryption_info is None ==> r == Err::<DeleteAction<Key>, StratisError>(
                StratisError::Msg(ErrorReason::PoolNotEncrypted),
            ) && *final(self) == *old(self),
            old(self).encryption_info matches Some(ei) ==> match unbind_plan(ei.slots(), token_slot, true) {
                SlotPlan::Unchanged => r == Ok::<DeleteAction<Key>, StratisError>(DeleteAction::Identity)
                    && *final(self) == *old(self),
                SlotPlan::Refused(e) => r == Err::<DeleteAction<Key>, StratisError>(StratisError::Msg(e))
                    && *final(self) == *old(self),
                SlotPlan::Change(t) => r == Ok::<DeleteAction<Key>, StratisError>(DeleteAction::Deleted(Key))
                    && final(self).slots() == Some(ei.slots().remove(t))
                    && *final(self) == (SimPool { encryption_info: final(self).encryption_info, ..*old(self) }),
            },
    {
        match self.unbind(token_slot, true) {
            Ok(true) => Ok(DeleteAction::Deleted(Key)),
            Ok(false) => Ok(DeleteAction::Identity),
            Err(e) => Err(e),
        }
    }

    /// Unbind a Clevis binding from `token_slot`, or from the single slot
    /// bound to one; refused when it is the last unlock method.
    pub fn unbind_clevis(&mut self, token_slot: Option<u32>) -> (r: Result<DeleteAction<Clevis>, StratisError>)
        ensures
            old(self).encryption_info is None ==> r == Err::<DeleteAction<Clevis>, StratisError>(
                StratisError::Msg(ErrorReason::PoolNotEncrypted),
            ) && *final(self) == *old(self),
            old(self).encryption_info matches Some(ei) ==> match unbind_plan(ei.slots(), token_slot, false) {
                SlotPlan::Unchanged => r == Ok::<DeleteAction<Clevis>, StratisError>(DeleteAction::Identity)
                    && *final(self) == *old(self),
                SlotPlan::Refused(e) => r == Err::<DeleteAction<Clevis>, StratisError>(StratisError::Msg(e))
                    && *final(self) == *old(self),
                SlotPlan::Change(t) => r == Ok::<DeleteAction<Clevis>, StratisError>(DeleteAction::Deleted(Clevis))
                    && final(self).slots() == Some(ei.slots().remove(t))
                    && *final(self) == (SimPool { encryption_info: final(self).encryption_info, ..*old(self) }),
            },
    {
        match self.unbind(token_slot, false) {
            Ok(true) => Ok(DeleteAction::Deleted(Clevis)),
            Ok(false) => Ok(DeleteAction::Identity),
            Err(e) => Err(e),
        }
    }

    /// Rebind `token_slot`, or the single slot bound to a key description, to
    /// another key description.
    pub fn rebind_keyring(&mut self, token_slot: Option<u32>, new_key_desc: &KeyDescription) -> (r: Result<
        RenameAction<Key>,
        StratisError,
    >)
        ensures
            old(self).encryption_info is None ==> r == Err::<RenameAction<Key>, StratisError>(
                StratisError::Msg(ErrorReason::PoolNotEncrypted),
            ) && *final(self) == *old(self),
            old(self).encryption_info matches Some(ei) ==> match rebind_key_plan(ei.slots(), token_slot, new_key_desc@) {
                SlotPlan::Unchanged => r == Ok::<RenameAction<Key>, StratisError>(RenameAction::Identity)
                    && *final(self) == *old(self),
                SlotPlan::Refused(e) => r == Err::<RenameAction<Key>, StratisError>(StratisError::Msg(e))
                    && *final(self) == *old(self),
                SlotPlan::Change(t) => r == Ok::<RenameAction<Key>, StratisError>(RenameAction::Renamed(Key))
                    && final(self).slots() == Some(ei.slots().insert(t, MechanismView::KeyDesc(new_key_desc@)))
                    && *final(self) == (SimPool { encryption_info: final(self).encryption_info, ..*old(self) }),
            },
    {
        let ei = match &mut self.encryption_info {
            Some(ei) => ei,
            None => {
                return Err(StratisError::Msg(ErrorReason::PoolNotEncrypted));
            },
        };
        let t = match Self::resolve_slot(ei, token_slot, true) {
            None => {
                return Err(StratisError::Msg(ErrorReason::EmptySlot));
            },
            Some((t, mech)) => match mech {
                None => {
                    return Err(StratisError::Msg(ErrorReason::EmptySlot));
                },
                Some(UnlockMechanism::ClevisInfo(_, _)) => {
                    return Err(StratisError::Msg(ErrorReason::SlotBoundToClevis(SlotUse::Rebind, t)));
                },
                Some(UnlockMechanism::KeyDesc(kd)) => {
                    if kd.same_as(new_key_desc) {
                        return Ok(RenameAction::Identity);
                    }
                    t
                },
            },
        };
        match ei.set_info(t, UnlockMechanism::KeyDesc(new_key_desc.duplicate())) {
            Ok(()) => Ok(RenameAction::Renamed(Key)),
            Err(e) => Err(e),
        }
    }

    /// Regenerate the Clevis binding of `token_slot`, or of the single slot
    /// bound to Clevis; nothing is stored of it, so nothing changes.
    pub fn rebind_clevis(&self, token_slot: Option<u32>) -> (r: Result<RegenAction, StratisError>)
        ensures
            self.encryption_info is None ==> r == Err::<RegenAction, StratisError>(
                StratisError::Msg(ErrorReason::PoolNotEncrypted),
            ),
            self.encryption_info matches Some(ei) ==> match slot_of_kind(ei.slots(), token_slot, false) {
                Some(t) => if !ei.slots().dom().contains(t) {
                    r == Err::<RegenAction, StratisError>(StratisError::Msg(ErrorReason::EmptySlot))
                } else if ei.slots()[t] is KeyDesc {
                    r == Err::<RegenAction, StratisError>(StratisError::Msg(ErrorReason::SlotBoundToKeyring(SlotUse::Rebind, t)))
                } else {
                    r == Ok::<RegenAction, StratisError>(RegenAction)
                },
                None => r == Err::<RegenAction, StratisError>(StratisError::Msg(ErrorReason::EmptySlot)),
            },
    {
        let ei = match &self.encryption_info {
            Some(ei) => ei,
            None => {
                return Err(StratisError::Msg(ErrorReason::PoolNotEncrypted));
            },
        };
        match Self::resolve_slot(ei, token_slot, false) {
            None => Err(StratisError::Msg(ErrorReason::EmptySlot)),
            Some((t, mech)) => match mech {
                None => Err(StratisError::Msg(ErrorReason::EmptySlot)),
                Some(UnlockMechanism::KeyDesc(_)) => Err(StratisError::Msg(ErrorReason::SlotBoundToKeyring(SlotUse::Rebind, t))),
                Some(UnlockMechanism::ClevisInfo(_, _)) => Ok(RegenAction),
            },
        }
    }

    /// Encrypt the pool with the requested unlock methods, replacing any
    /// earlier encryption information.
    pub fn encrypt_pool(&mut self, enc: &InputEncryptionInfo) -> (r: Result<CreateAction<EncryptedDevice>, StratisError>)
        requires
            enc.items@.len() < u32::MAX,
        ensures
            match converted(enc.entries(), None) {
                Ok(m) => r == Ok::<CreateAction<EncryptedDevice>, StratisError>(CreateAction::Created(EncryptedDevice))
                    && final(self).slots() == Some(m)
                    && *final(self) == (SimPool { encryption_info: final(self).encryption_info, ..*old(self) }),
                Err(f) => r matches Err(e) && reports(e, f) && *final(self) == *old(self),
            },
    {
        match convert_encryption_info(Some(enc), None) {
            Ok(info) => {
                self.encryption_info = info;
                Ok(CreateAction::Created(EncryptedDevice))
            },
            Err(e) => Err(e),
        }
    }

    /// Rename a filesystem: nothing to do when no filesystem has the UUID or
    /// the name is unchanged; refused when the new name is invalid or taken.
    pub fn rename_filesystem(&mut self, uuid: FilesystemUuid, new_name: &str) -> (r: Result<
        RenameAction<FilesystemUuid>,
        StratisError,
    >)
        requires
            old(self).wf(),
        ensures
            final(self).wf(),
            name_violation(new_name@, new_name.len() as nat) matches Some(v) ==> (r matches Err(
                StratisError::InvalidName(w, n),
            ) && w == v && n@ == new_name@) && final(self).fs_map() == old(self).fs_map(),
            name_violation(new_name@, new_name.len() as nat) is None ==> {
                if !old(self).fs_map().dom().contains(uuid.0) {
                    r == Ok::<RenameAction<FilesystemUuid>, StratisError>(RenameAction::NoSource)
                        && final(self).fs_map() == old(self).fs_map()
                } else if old(self).fs_map()[uuid.0].0 == new_name@ {
                    r == Ok::<RenameAction<FilesystemUuid>, StratisError>(RenameAction::Identity)
                        && final(self).fs_map() == old(self).fs_map()
                } else if has_name(old(self).fs_map(), new_name@) {
                    r matches Err(StratisError::NameTaken(n)) && n@ == new_name@ && final(self).fs_map()
                        == old(self).fs_map()
                } else {
                    r == Ok::<RenameAction<FilesystemUuid>, StratisError>(RenameAction::Renamed(uuid))
                        && final(self).fs_map() == old(self).fs_map().insert(
                        uuid.0,
                        (new_name@, old(self).fs_map()[uuid.0].1),
                    )
                }
            },
            final(self).block_devs == old(self).block_devs,
            final(self).cache_devs == old(self).cache_devs,
            final(self).encryption_info == old(self).encryption_info,
            final(self).fs_limit == old(self).fs_limit,
    {
        match validate_name(new_name) {
            Err(e) => {
                return Err(e);
            },
            Ok(()) => {},
        }
        let same = match self.filesystems.get_by_uuid(uuid.0) {
            None => {
                return Ok(RenameAction::NoSource);
            },
            Some((old_name, _)) => crate::table::str_eq(old_name.as_str(), new_name),
        };
        if same {
            return Ok(RenameAction::Identity);
        }
        if self.filesystems.contains_name(new_name) {
            return Err(StratisError::NameTaken(new_name.to_owned()));
        }
        let (_, filesystem) = self.filesystems.remove_by_uuid(uuid.0).unwrap();
        proof {
            self.filesystems.lemma_wf();
            assert(!has_name(self.fs_map(), new_name@));
        }
        self.filesystems.insert(new_name.to_owned(), uuid.0, filesystem);
        proof {
            assert(self.fs_map() =~= old(self).fs_map().insert(uuid.0, (new_name@, old(self).fs_map()[uuid.0].1)));
        }
        Ok(RenameAction::Renamed(uuid))
    }

    /// Whether `new_fs` more filesystems fit under the limit.
    pub open spec fn fits_limit(&self, new_fs: int) -> bool {
        self.fs_limit >= self.fs_map().dom().len() + new_fs
    }

    /// Refuse when `new_fs` more filesystems would pass the limit.
    pub fn check_fs_limit(&self, new_fs: usize) -> (r: Result<(), StratisError>)
        requires
            self.wf(),
        ensures
            self.fits_limit(new_fs as int) ==> r is Ok,
            !self.fits_limit(new_fs as int) ==> r == Err::<(), StratisError>(
                StratisError::Msg(ErrorReason::FilesystemLimitReached(self.fs_limit)),
            ),
    {
        let count = self.filesystems.len();
        if (self.fs_limit as u128) < count as u128 + new_fs as u128 {
            Err(StratisError::Msg(ErrorReason::FilesystemLimitReached(self.fs_limit)))
        } else {
            Ok(())
        }
    }

    /// Create filesystems from requests of a name, a size and a size limit.
    /// A name that exists already with the requested size is left as it is;
    /// when a name is requested more than once, its last request counts.
    pub fn create_filesystems(&mut self, specs: &Vec<FsSpec>) -> (r: Result<
        SetCreateAction<(String, FilesystemUuid, Sectors)>,
        StratisError,
    >)
        requires
            old(self).wf(),
        ensures
            final(self).wf(),
            final(self).block_devs == old(self).block_devs,
            final(self).cache_devs == old(self).cache_devs,
            final(self).encryption_info == old(self).encryption_info,
            final(self).fs_limit == old(self).fs_limit,
            r is Err ==> final(self).fs_map() == old(self).fs_map(),
            !old(self).fits_limit(specs@.len() as int) ==> r == Err::<
                SetCreateAction<(String, FilesystemUuid, Sectors)>,
                StratisError,
            >(StratisError::Msg(ErrorReason::FilesystemLimitReached(old(self).fs_limit))),
            old(self).fits_limit(specs@.len() as int) ==> {
                let m = old(self).fs_map();
                let sp = specs@;
                if exists|a: int| first_bad_spec(sp, a) {
                    exists|a: int| first_bad_spec(sp, a) && r == Err::<
                        SetCreateAction<(String, FilesystemUuid, Sectors)>,
                        StratisError,
                    >(spec_error(sp[a]))
                } else if bad_name_in(sp) || size_conflict_in(m, sp) {
                    &&& r matches Err(e) && (e is InvalidName || e == StratisError::Msg(ErrorReason::FilesystemSizeConflict))
                    &&& !bad_name_in(sp) ==> r == Err::<
                        SetCreateAction<(String, FilesystemUuid, Sectors)>,
                        StratisError,
                    >(StratisError::Msg(ErrorReason::FilesystemSizeConflict))
                    &&& !size_conflict_in(m, sp) ==> r matches Err(StratisError::InvalidName(_, _))
                } else if limit_conflict_in(m, sp) {
                    r == Err::<SetCreateAction<(String, FilesystemUuid, Sectors)>, StratisError>(
                        StratisError::Msg(ErrorReason::SizeLimitBelowSize),
                    )
                } else {
                    &&& (m.dom().len() == 0 && one_name(sp) ==> r is Ok)
                    &&& (r is Ok || (r == Err::<SetCreateAction<(String, FilesystemUuid, Sectors)>, StratisError>(
                        StratisError::Msg(ErrorReason::UuidCollision),
                    ) && exists|a: int| 0 <= a < sp.len() && !has_name(m, #[trigger] sp[a].name@)))
                }
            },
            r matches Err(StratisError::InvalidName(v, n)) ==> exists|a: int|
                0 <= a < specs@.len() && name_error(#[trigger] specs@[a].name@) == Some(v) && n@ == specs@[a].name@,
            r matches Ok(a) ==> filesystems_created(old(self).fs_map(), final(self).fs_map(), specs@, a.changed@),
    {
        match self.check_fs_limit(specs.len()) {
            Err(e) => {
                return Err(e);
            },
            Ok(()) => {},
        }
        let ghost m = self.fs_map();
        let valid = match validate_filesystem_size_specs(specs) {
            Ok(v) => v,
            Err(e) => {
                return Err(e);
            },
        };
        proof {
            assert(!exists|a: int| first_bad_spec(specs@, a));
        }
        let n = valid.len();
        let mut i: usize = 0;
        while i < n
            invariant
                self.wf(),
                *self == *old(self),
                m == old(self).fs_map(),
                old(self).fits_limit(specs@.len() as int),
                forall|a: int| 0 <= a < specs@.len() ==> crate::shared::fs_spec_ok(#[trigger] specs@[a]),
                self.fs_map() == m,
                n == valid@.len(),
                i <= n,
                crate::shared::valid_specs_of(specs@, valid@),
                forall|j: int| 0 <= j < i ==> name_error(#[trigger] valid@[j].name@) is None,
                forall|j: int|
                    0 <= j < i && has_name(m, #[trigger] valid@[j].name@) ==> m[uuid_of_name(m, valid@[j].name@)].1.size
                        == valid@[j].size,
            decreases n - i,
        {
            match validate_name_string(&valid[i].name) {
                Err(e) => {
                    proof {
                        lemma_valid_entry_is_last(specs@, valid@, i as int);
                    }
                    return Err(e);
                },
                Ok(()) => {},
            }
            match self.filesystems.get_by_name(valid[i].name.as_str()) {
                Some((u, fs)) => {
                    proof {
                        self.filesystems.lemma_wf();
                        let c = uuid_of_name(m, valid@[i as int].name@);
                        assert(m.dom().contains(c) && m[c].0 == valid@[i as int].name@);
                        assert(c == u);
                    }
                    if fs.size.0 != valid[i].size.0 {
                        proof {
                            lemma_valid_entry_is_last(specs@, valid@, i as int);
                            let a = choose|a: int|
                                0 <= a < specs@.len() && #[trigger] specs@[a].name@ == valid@[i as int].name@
                                    && last_for_name(specs@, a);
                            let j = lemma_valid_entry_for(specs@, valid@, a);
                            assert(j == i);
                            assert(size_conflict_in(m, specs@));
                        }
                        return Err(StratisError::Msg(ErrorReason::FilesystemSizeConflict));
                    }
                },
                None => {},
            }
            i = i + 1;
        }
        proof {
            assert forall|a: int| 0 <= a < specs@.len() implies name_error(#[trigger] specs@[a].name@) is None by {
                let j = lemma_valid_entry_for(specs@, valid@, a);
            }
            assert forall|a: int|
                0 <= a < specs@.len() && last_for_name(specs@, a) && has_name(m, #[trigger] specs@[a].name@)
                implies m[uuid_of_name(m, specs@[a].name@)].1.size == spec_size_of(specs@[a]) by {
                let j = lemma_valid_entry_for(specs@, valid@, a);
            }
            assert(!bad_name_in(specs@));
            assert(!size_conflict_in(m, specs@));
        }
        let mut fresh: Vec<usize> = Vec::new();
        let mut i: usize = 0;
        while i < n
            invariant
                self.wf(),
                *self == *old(self),
                m == old(self).fs_map(),
                old(self).fits_limit(specs@.len() as int),
                forall|a: int| 0 <= a < specs@.len() ==> crate::shared::fs_spec_ok(#[trigger] specs@[a]),
                !bad_name_in(specs@),
                !size_conflict_in(m, specs@),
                self.fs_map() == m,
                n == valid@.len(),
                i <= n,
                crate::shared::valid_specs_of(specs@, valid@),
                forall|k: int| 0 <= k < fresh@.len() ==> #[trigger] fresh@[k] < i,
                forall|k: int, l: int| 0 <= k < l < fresh@.len() ==> fresh@[k] < fresh@[l],
                forall|k: int|
                    0 <= k < fresh@.len() ==> !has_name(m, valid@[#[trigger] fresh@[k] as int].name@)
                        && limit_allows(valid@[fresh@[k] as int].size, valid@[fresh@[k] as int].size_limit),
                forall|j: int|
                    0 <= j < i && !has_name(m, #[trigger] valid@[j].name@) ==> exists|k: int|
                        0 <= k < fresh@.len() && fresh@[k] == j,
            decreases n - i,
        {
            if !self.filesystems.contains_name(valid[i].name.as_str()) {
                let ok = match valid[i].size_limit {
                    Some(l) => valid[i].size.0 <= l.0,
                    None => true,
                };
                if !ok {
                    proof {
                        lemma_valid_entry_is_last(specs@, valid@, i as int);
                        let a = choose|a: int|
                            0 <= a < specs@.len() && #[trigger] specs@[a].name@ == valid@[i as int].name@
                                && last_for_name(specs@, a);
                        let j = lemma_valid_entry_for(specs@, valid@, a);
                        assert(j == i);
                        assert(limit_conflict_in(m, specs@));
                    }
                    return Err(StratisError::Msg(ErrorReason::SizeLimitBelowSize));
                }
                let ghost before = fresh@;
                fresh.push(i);
                proof {
                    assert(fresh@[before.len() as int] == i);
                    assert forall|j: int|
                        0 <= j < i + 1 && !has_name(m, #[trigger] valid@[j].name@) implies exists|k: int|
                            0 <= k < fresh@.len() && fresh@[k] == j by {
                        if j < i {
                            let k = choose|k: int| 0 <= k < before.len() && before[k] == j;
                            assert(fresh@[k] == before[k]);
                        } else {
                            assert(fresh@[before.len() as int] == j);
                        }
                    }
                }
            }
            i = i + 1;
        }
        proof {
            assert forall|a: int|
                0 <= a < specs@.len() && last_for_name(specs@, a) && !has_name(m, #[trigger] specs@[a].name@)
                implies limit_allows(spec_size_of(specs@[a]), spec_limit_of(specs@[a])) by {
                let j = lemma_valid_entry_for(specs@, valid@, a);
                let k = choose|k: int| 0 <= k < fresh@.len() && fresh@[k] == j;
            }
        }
        let uuids = match self.fresh_fs_uuids(fresh.len()) {
            Some(v) => v,
            None => {
                proof {
                    let j = fresh@[0] as int;
                    assert(!has_name(m, valid@[j].name@));
                    lemma_valid_entry_is_last(specs@, valid@, j);
                    let a = choose|a: int| 0 <= a < specs@.len() && #[trigger] specs@[a].name@ == valid@[j].name@ && last_for_name(specs@, a);
                    assert(!has_name(m, specs@[a].name@));
                    if one_name(specs@) && fresh@.len() >= 2 {
                        assert(fresh@[0] < fresh@[1]);
                        lemma_valid_entry_is_last(specs@, valid@, 0);
                        lemma_valid_entry_is_last(specs@, valid@, 1);
                        let a0 = choose|a: int| 0 <= a < specs@.len() && #[trigger] specs@[a].name@ == valid@[0].name@ && last_for_name(specs@, a);
                        let a1 = choose|a: int| 0 <= a < specs@.len() && #[trigger] specs@[a].name@ == valid@[1].name@ && last_for_name(specs@, a);
                        assert(specs@[a0].name@ == specs@[a1].name@);
                    }
                }
                return Err(StratisError::Msg(ErrorReason::UuidCollision));
            },
        };
        let mut created: Vec<(String, FilesystemUuid, Sectors)> = Vec::new();
        let mut k: usize = 0;
        while k < fresh.len()
            invariant
                self.wf(),
                self.block_devs == old(self).block_devs,
                self.cache_devs == old(self).cache_devs,
                self.encryption_info == old(self).encryption_info,
                self.fs_limit == old(self).fs_limit,
                m == old(self).fs_map(),
                crate::shared::valid_specs_of(specs@, valid@),
                forall|j: int| 0 <= j < n && !has_name(m, #[trigger] valid@[j].name@) ==> exists|x: int|
                    0 <= x < fresh@.len() && fresh@[x] == j,
                n == valid@.len(),
                k <= fresh@.len(),
                uuids@.len() == fresh@.len(),
                created@.len() == k,
                forall|x: int| 0 <= x < fresh@.len() ==> #[trigger] fresh@[x] < n,
                forall|x: int, y: int| 0 <= x < y < fresh@.len() ==> fresh@[x] < fresh@[y],
                forall|x: int|
                    0 <= x < fresh@.len() ==> !has_name(m, valid@[#[trigger] fresh@[x] as int].name@)
                        && limit_allows(valid@[fresh@[x] as int].size, valid@[fresh@[x] as int].size_limit),
                forall|x: int| 0 <= x < uuids@.len() ==> !m.dom().contains(#[trigger] uuids@[x]),
                forall|x: int, y: int| 0 <= x < uuids@.len() && 0 <= y < uuids@.len() && x != y ==> uuids@[x] != uuids@[y],
                forall|p: int, q: int| 0 <= p < valid@.len() && 0 <= q < valid@.len() && p != q ==> valid@[p].name@ != valid@[q].name@,
                forall|u: u128| #[trigger] m.dom().contains(u) ==> self.fs_map().dom().contains(u) && self.fs_map()[u] == m[u],
                forall|u: u128| #[trigger] self.fs_map().dom().contains(u) ==> m.dom().contains(u) || exists|x: int| 0 <= x < k && uuids@[x] == u,
                forall|x: int| 0 <= x < k ==> {
                    let c = #[trigger] created@[x];
                    let e = valid@[fresh@[x] as int];
                    &&& c.0@ == e.name@
                    &&& c.1.0 == uuids@[x]
                    &&& c.2 == e.size
                    &&& self.fs_map().dom().contains(uuids@[x])
                    &&& self.fs_map()[uuids@[x]].0 == e.name@
                    &&& self.fs_map()[uuids@[x]].1.size == e.size
                    &&& self.fs_map()[uuids@[x]].1.size_limit == e.size_limit
                    &&& self.fs_map()[uuids@[x]].1.origin is None
                    &&& !self.fs_map()[uuids@[x]].1.merge_scheduled
                },
            decreases fresh@.len() - k,
        {
            let j = fresh[k];
            let u = uuids[k];
            let filesystem = match SimFilesystem::new(valid[j].size, valid[j].size_limit, None) {
                Ok(f) => f,
                Err(e) => {
                    return Err(e);
                },
            };
            proof {
                if self.fs_map().dom().contains(u) {
                    if !m.dom().contains(u) {
                        let x = choose|x: int| 0 <= x < k && uuids@[x] == u;
                        assert(uuids@[x] != uuids@[k as int]);
                    }
                }
                if has_name(self.fs_map(), valid@[j as int].name@) {
                    let w = choose|w: u128| #[trigger] self.fs_map().dom().contains(w) && self.fs_map()[w].0 == valid@[j as int].name@;
                    if m.dom().contains(w) {
                        assert(has_name(m, valid@[j as int].name@));
                    } else {
                        let x = choose|x: int| 0 <= x < k && uuids@[x] == w;
                        assert(created@[x].0@ == valid@[fresh@[x] as int].name@);
                        assert(fresh@[x] < fresh@[k as int]);
                    }
                }
            }
            let ghost before = self.fs_map();
            let ghost before_created = created@;
            self.filesystems.insert(valid[j].name.clone(), u, filesystem);
            created.push((valid[j].name.clone(), FilesystemUuid(u), valid[j].size));
            proof {
                assert(!m.dom().contains(u));
                assert forall|w: u128| m.dom().contains(w) implies self.fs_map().dom().contains(w)
                    && #[trigger] self.fs_map()[w] == m[w] by {
                    assert(before[w] == m[w]);
                }
                assert forall|x: int| 0 <= x < k + 1 implies {
                    let c = #[trigger] created@[x];
                    let e = valid@[fresh@[x] as int];
                    &&& c.0@ == e.name@
                    &&& c.1.0 == uuids@[x]
                    &&& c.2 == e.size
                    &&& self.fs_map().dom().contains(uuids@[x])
                    &&& self.fs_map()[uuids@[x]].0 == e.name@
                    &&& self.fs_map()[uuids@[x]].1.size == e.size
                    &&& self.fs_map()[uuids@[x]].1.size_limit == e.size_limit
                    &&& self.fs_map()[uuids@[x]].1.origin is None
                    &&& !self.fs_map()[uuids@[x]].1.merge_scheduled
                } by {
                    if x < k {
                        assert(created@[x] == before_created[x]);
                        assert(uuids@[x] != uuids@[k as int]);
                        assert(before.dom().contains(uuids@[x]));
                    }
                }
                assert forall|w: u128| #[trigger] self.fs_map().dom().contains(w) implies m.dom().contains(w) || exists|x: int| 0 <= x < k + 1 && uuids@[x] == w by {
                    if w != u {
                        assert(before.dom().contains(w));
                    }
                }
            }
            k = k + 1;
        }
        proof {
            let nm = self.fs_map();
            let c = created@;
            assert forall|x: int| 0 <= x < c.len() implies {
                let cc = #[trigger] c[x];
                &&& !has_name(m, cc.0@)
                &&& !m.dom().contains(cc.1.0)
                &&& nm.dom().contains(cc.1.0)
                &&& nm[cc.1.0].0 == cc.0@
                &&& nm[cc.1.0].1.size == cc.2
                &&& nm[cc.1.0].1.origin is None
                &&& !nm[cc.1.0].1.merge_scheduled
                &&& is_last_request(specs@, cc.0@, cc.2, nm[cc.1.0].1.size_limit)
            } by {
                lemma_valid_entry_is_last(specs@, valid@, fresh@[x] as int);
            }
            assert forall|x: int, y: int| 0 <= x < c.len() && 0 <= y < c.len() && x != y implies c[x].0@ != c[y].0@ by {
                if x < y {
                    assert(fresh@[x] < fresh@[y]);
                } else {
                    assert(fresh@[y] < fresh@[x]);
                }
            }
            assert forall|a: int| 0 <= a < specs@.len() implies has_name(m, #[trigger] specs@[a].name@) || exists|x: int|
                0 <= x < c.len() && c[x].0@ == specs@[a].name@ by {
                let j = lemma_valid_entry_for(specs@, valid@, a);
                if !has_name(m, specs@[a].name@) {
                    let x = choose|x: int| 0 <= x < fresh@.len() && fresh@[x] == j;
                    assert(c[x].0@ == specs@[a].name@);
                }
            }
            assert forall|w: u128| #[trigger] nm.dom().contains(w) <==> (m.dom().contains(w) || exists|x: int|
                0 <= x < c.len() && c[x].1.0 == w) by {
                if exists|x: int| 0 <= x < c.len() && c[x].1.0 == w {
                    let x = choose|x: int| 0 <= x < c.len() && c[x].1.0 == w;
                    assert(nm.dom().contains(uuids@[x]));
                }
                if nm.dom().contains(w) && !m.dom().contains(w) {
                    let x = choose|x: int| 0 <= x < k && uuids@[x] == w;
                    assert(c[x].1.0 == w);
                }
                if m.dom().contains(w) {
                    assert(nm[w] == m[w]);
                }
            }
        }
        Ok(SetCreateAction::new(created))
    }

    /// Snapshot a filesystem under a new name. Nothing is done when a
    /// filesystem of that name and the same size exists; refused when the
    /// limit is reached, the name is invalid, the origin is unknown, or a
    /// filesystem of that name has another size.
    pub fn snapshot_filesystem(&mut self, origin_uuid: FilesystemUuid, snapshot_name: &str) -> (r: Result<
        CreateAction<FilesystemUuid>,
        StratisError,
    >)
        requires
            old(self).wf(),
        ensures
            final(self).wf(),
            final(self).block_devs == old(self).block_devs,
            final(self).cache_devs == old(self).cache_devs,
            final(self).encryption_info == old(self).encryption_info,
            final(self).fs_limit == old(self).fs_limit,
            r is Err ==> final(self).fs_map() == old(self).fs_map(),
            !old(self).fits_limit(1) ==> r == Err::<CreateAction<FilesystemUuid>, StratisError>(
                StratisError::Msg(ErrorReason::FilesystemLimitReached(old(self).fs_limit)),
            ),
            old(self).fits_limit(1) ==> match name_violation(snapshot_name@, snapshot_name.len() as nat) {
                Some(v) => r matches Err(StratisError::InvalidName(w, n)) && w == v && n@ == snapshot_name@,
                None => if !old(self).fs_map().dom().contains(origin_uuid.0) {
                    r == Err::<CreateAction<FilesystemUuid>, StratisError>(
                        StratisError::Msg(ErrorReason::FilesystemNotFound),
                    )
                } else if has_name(old(self).fs_map(), snapshot_name@) {
                    let existing = old(self).fs_map()[crate::table::uuid_of_name(old(self).fs_map(), snapshot_name@)].1;
                    if existing.size != old(self).fs_map()[origin_uuid.0].1.size {
                        r == Err::<CreateAction<FilesystemUuid>, StratisError>(
                            StratisError::Msg(ErrorReason::FilesystemSizeConflict),
                        )
                    } else {
                        r == Ok::<CreateAction<FilesystemUuid>, StratisError>(CreateAction::Identity)
                            && final(self).fs_map() == old(self).fs_map()
                    }
                } else {
                    let origin = old(self).fs_map()[origin_uuid.0].1;
                    &&& !limit_allows(origin.size, origin.size_limit) ==> r == Err::<CreateAction<FilesystemUuid>, StratisError>(
                        StratisError::Msg(ErrorReason::SizeLimitBelowSize),
                    )
                    &&& limit_allows(origin.size, origin.size_limit) ==> (r is Ok || r == Err::<CreateAction<FilesystemUuid>, StratisError>(
                        StratisError::Msg(ErrorReason::UuidCollision),
                    ))
                    &&& r matches Ok(CreateAction::Created(u)) ==> !old(self).fs_map().dom().contains(u.0)
                        && final(self).fs_map().dom().contains(u.0)
                        && final(self).fs_map()[u.0].0 == snapshot_name@
                        && final(self).fs_map()[u.0].1.size == origin.size
                        && final(self).fs_map()[u.0].1.size_limit == origin.size_limit
                        && final(self).fs_map()[u.0].1.origin == Some(origin_uuid)
                        && !final(self).fs_map()[u.0].1.merge_scheduled
                        && final(self).fs_map() == old(self).fs_map().insert(u.0, final(self).fs_map()[u.0])
                    &&& !(r matches Ok(CreateAction::Identity))
                },
            },
    {
        match self.check_fs_limit(1) {
            Err(e) => {
                return Err(e);
            },
            Ok(()) => {},
        }
        match validate_name(snapshot_name) {
            Err(e) => {
                return Err(e);
            },
            Ok(()) => {},
        }
        let (size, limit) = match self.filesystems.get_by_uuid(origin_uuid.0) {
            Some((_, fs)) => (fs.size, fs.size_limit),
            None => {
                return Err(StratisError::Msg(ErrorReason::FilesystemNotFound));
            },
        };
        match self.filesystems.get_by_name(snapshot_name) {
            Some((tu, target)) => {
                proof {
                    self.filesystems.lemma_wf();
                    let c = crate::table::uuid_of_name(self.fs_map(), snapshot_name@);
                    assert(self.fs_map().dom().contains(c) && self.fs_map()[c].0 == snapshot_name@);
                    assert(c == tu);
                }
                if target.size.0 != size.0 {
                    return Err(StratisError::Msg(ErrorReason::FilesystemSizeConflict));
                } else {
                    return Ok(CreateAction::Identity);
                }
            },
            None => {},
        }
        let snapshot = match SimFilesystem::new(size, limit, Some(origin_uuid)) {
            Ok(fs) => fs,
            Err(e) => {
                return Err(e);
            },
        };
        let no_uuids: Vec<u128> = Vec::new();
        let uuid = match self.fresh_fs_uuid(&no_uuids) {
            Some(u) => u,
            None => {
                return Err(StratisError::Msg(ErrorReason::UuidCollision));
            },
        };
        self.filesystems.insert(snapshot_name.to_owned(), uuid, snapshot);
        Ok(CreateAction::Created(FilesystemUuid(uuid)))
    }

    /// Set or clear the size limit of a filesystem given in bytes.
    pub fn set_fs_size_limit(&mut self, fs_uuid: FilesystemUuid, limit: Option<Bytes>) -> (r: Result<
        PropChangeAction<Option<Sectors>>,
        StratisError,
    >)
        requires
            old(self).wf(),
        ensures
            final(self).wf(),
            final(self).block_devs == old(self).block_devs,
            final(self).cache_devs == old(self).cache_devs,
            final(self).encryption_info == old(self).encryption_info,
            final(self).fs_limit == old(self).fs_limit,
            r is Err ==> final(self).fs_map() == old(self).fs_map(),
            !old(self).fs_map().dom().contains(fs_uuid.0) ==> r
                == Err::<PropChangeAction<Option<Sectors>>, StratisError>(
                StratisError::Msg(ErrorReason::FilesystemNotFound),
            ),
            old(self).fs_map().dom().contains(fs_uuid.0) ==> {
                let (name, fs) = old(self).fs_map()[fs_uuid.0];
                match limit {
                    Some(b) => if b.0 % 512 != 0 || b.0 / 512 > u64::MAX {
                        r matches Err(StratisError::SizeNotSectorMultiple(n)) && n@ == name
                    } else if b.0 / 512 < crate::shared::MIN_THIN_DEV_SIZE {
                        r matches Err(StratisError::SizeTooSmall(n, _)) && n@ == name
                    } else {
                        let l = Sectors((b.0 / 512) as u64);
                        if fs.size.0 > l.0 {
                            r == Err::<PropChangeAction<Option<Sectors>>, StratisError>(
                                StratisError::Msg(ErrorReason::SizeLimitBelowSize),
                            )
                        } else if fs.size_limit == Some(l) {
                            r == Ok::<PropChangeAction<Option<Sectors>>, StratisError>(PropChangeAction::Identity)
                                && final(self).fs_map() == old(self).fs_map()
                        } else {
                            r == Ok::<PropChangeAction<Option<Sectors>>, StratisError>(PropChangeAction::NewValue(Some(l)))
                                && final(self).fs_map() == old(self).fs_map().insert(
                                fs_uuid.0,
                                (name, SimFilesystem { size_limit: Some(l), ..fs }),
                            )
                        }
                    },
                    None => if fs.size_limit is None {
                        r == Ok::<PropChangeAction<Option<Sectors>>, StratisError>(PropChangeAction::Identity)
                            && final(self).fs_map() == old(self).fs_map()
                    } else {
                        r == Ok::<PropChangeAction<Option<Sectors>>, StratisError>(PropChangeAction::NewValue(None))
                            && final(self).fs_map() == old(self).fs_map().insert(
                            fs_uuid.0,
                            (name, SimFilesystem { size_limit: None, ..fs }),
                        )
                    },
                }
            },
    {
        let name = match self.filesystems.get_by_uuid(fs_uuid.0) {
            Some((n, _)) => n.clone(),
            None => {
                return Err(StratisError::Msg(ErrorReason::FilesystemNotFound));
            },
        };
        let limit = match validate_filesystem_size(&name, limit) {
            Ok(l) => l,
            Err(e) => {
                return Err(e);
            },
        };
        let fs = self.filesystems.get_mut_by_uuid(fs_uuid.0).unwrap();
        let changed = fs.set_size_limit(limit);
        match changed {
            Err(e) => Err(e),
            Ok(true) => Ok(PropChangeAction::NewValue(limit)),
            Ok(false) => Ok(PropChangeAction::Identity),
        }
    }

    /// Whether some filesystem other than none has origin `origin` and is
    /// scheduled to revert into it.
    pub open spec fn scheduled_into(&self, origin: FilesystemUuid) -> bool {
        exists|u: u128| #[trigger] self.fs_map().dom().contains(u) && self.fs_map()[u].1.origin
            == Some(origin) && self.fs_map()[u].1.merge_scheduled
    }

    fn any_scheduled_into(&self, origin: FilesystemUuid) -> (r: bool)
        requires
            self.wf(),
        ensures
            r == self.scheduled_into(origin),
    {
        let uuids = self.filesystems.uuids();
        let mut i: usize = 0;
        while i < uuids.len()
            invariant
                self.wf(),
                i <= uuids@.len(),
                forall|u: u128| #[trigger] self.fs_map().dom().contains(u) <==> uuids@.contains(u),
                forall|j: int| 0 <= j < i ==> !(self.fs_map()[uuids@[j]].1.origin == Some(origin)
                    && self.fs_map()[uuids@[j]].1.merge_scheduled),
            decreases uuids@.len() - i,
        {
            let (_, f) = self.filesystems.get_by_uuid(uuids[i]).unwrap();
            proof {
                assert(uuids@.contains(uuids@[i as int]));
            }
            let o = match f.origin {
                Some(o) => o.0 == origin.0,
                None => false,
            };
            if o && f.merge_scheduled {
                return true;
            }
            i = i + 1;
        }
        proof {
            assert forall|u: u128| #[trigger] self.fs_map().dom().contains(u) implies !(self.fs_map()[u].1.origin
                == Some(origin) && self.fs_map()[u].1.merge_scheduled) by {
                assert(uuids@.contains(u));
                let j = choose|j: int| 0 <= j < uuids@.len() && uuids@[j] == u;
            }
        }
        false
    }

    /// Schedule, or cancel, the revert of a snapshot into its origin.
    pub fn set_fs_merge_scheduled(&mut self, fs_uuid: FilesystemUuid, scheduled: bool) -> (r: Result<
        PropChangeAction<bool>,
        StratisError,
    >)
        requires
            old(self).wf(),
        ensures
            final(self).wf(),
            final(self).block_devs == old(self).block_devs,
            final(self).cache_devs == old(self).cache_devs,
            final(self).encryption_info == old(self).encryption_info,
            final(self).fs_limit == old(self).fs_limit,
            r is Err || r == Ok::<PropChangeAction<bool>, StratisError>(PropChangeAction::Identity) ==> final(self).fs_map() == old(self).fs_map(),
            !old(self).fs_map().dom().contains(fs_uuid.0) ==> r == Err::<PropChangeAction<bool>, StratisError>(
                StratisError::Msg(ErrorReason::FilesystemNotFound),
            ),
            old(self).fs_map().dom().contains(fs_uuid.0) ==> {
                let (name, fs) = old(self).fs_map()[fs_uuid.0];
                match fs.origin {
                    None => r == Err::<PropChangeAction<bool>, StratisError>(StratisError::Msg(ErrorReason::NoOrigin)),
                    Some(origin) => if fs.merge_scheduled == scheduled {
                        r == Ok::<PropChangeAction<bool>, StratisError>(PropChangeAction::Identity)
                    } else if scheduled && old(self).fs_map().dom().contains(origin.0)
                        && old(self).fs_map()[origin.0].1.merge_scheduled {
                        r == Err::<PropChangeAction<bool>, StratisError>(StratisError::Msg(ErrorReason::OriginScheduled))
                    } else if scheduled && old(self).scheduled_into(origin) {
                        r == Err::<PropChangeAction<bool>, StratisError>(StratisError::Msg(ErrorReason::OtherSnapshotScheduled))
                    } else if scheduled && old(self).scheduled_into(fs_uuid) {
                        r == Err::<PropChangeAction<bool>, StratisError>(StratisError::Msg(ErrorReason::SnapshotScheduledIntoThis))
                    } else {
                        r == Ok::<PropChangeAction<bool>, StratisError>(PropChangeAction::NewValue(scheduled))
                            && final(self).fs_map() == old(self).fs_map().insert(
                            fs_uuid.0,
                            (name, SimFilesystem { merge_scheduled: scheduled, ..fs }),
                        )
                    },
                }
            },
    {
        let (origin, current) = match self.filesystems.get_by_uuid(fs_uuid.0) {
            None => {
                return Err(StratisError::Msg(ErrorReason::FilesystemNotFound));
            },
            Some((_, fs)) => match fs.origin {
                None => {
                    return Err(StratisError::Msg(ErrorReason::NoOrigin));
                },
                Some(o) => (o, fs.merge_scheduled),
            },
        };
        if current == scheduled {
            return Ok(PropChangeAction::Identity);
        }
        if scheduled {
            let origin_scheduled = match self.filesystems.get_by_uuid(origin.0) {
                Some((_, ofs)) => ofs.merge_scheduled,
                None => false,
            };
            if origin_scheduled {
                return Err(StratisError::Msg(ErrorReason::OriginScheduled));
            }
            if self.any_scheduled_into(origin) {
                return Err(StratisError::Msg(ErrorReason::OtherSnapshotScheduled));
            }
            if self.any_scheduled_into(fs_uuid) {
                return Err(StratisError::Msg(ErrorReason::SnapshotScheduledIntoThis));
            }
        }
        let fs = self.filesystems.get_mut_by_uuid(fs_uuid.0).unwrap();
        let res = fs.set_merge_scheduled(scheduled);
        match res {
            Ok(_) => Ok(PropChangeAction::NewValue(scheduled)),
            Err(e) => Err(e),
        }
    }
}

/// One device per distinct path that no device of `existing` is at, in
/// order of first occurrence.
pub fn new_devices(paths: &Vec<String>, existing: &Vec<(DevUuid, SimDev)>) -> (r: Vec<(DevUuid, SimDev)>)
    ensures
        devnode_set(r@) == str_set(paths@).difference(devnode_set(existing@)),
        forall|i: int, j: int|
            0 <= i < r@.len() && 0 <= j < r@.len() && i != j ==> r@[i].1.devnode@ != r@[j].1.devnode@,
        forall|i: int| 0 <= i < r@.len() ==> (#[trigger] r@[i]).1.user_info is None,
{
    let mut r: Vec<(DevUuid, SimDev)> = Vec::new();
    let mut i: usize = 0;
    while i < paths.len()
        invariant
            i <= paths@.len(),
            devnode_set(r@) == str_set(paths@.take(i as int)).difference(devnode_set(existing@)),
            forall|a: int, b: int|
                0 <= a < r@.len() && 0 <= b < r@.len() && a != b ==> r@[a].1.devnode@ != r@[b].1.devnode@,
            forall|a: int| 0 <= a < r@.len() ==> (#[trigger] r@[a]).1.user_info is None,
        decreases paths@.len() - i,
    {
        let ghost before = r@;
        let in_new = contains_devnode(&r, &paths[i]);
        let in_old = contains_devnode(existing, &paths[i]);
        let present = in_new || in_old;
        if !present {
            r.push(SimDev::new(&paths[i]));
        }
        proof {
            let t0 = paths@.take(i as int);
            let t1 = paths@.take(i as int + 1);
            let ex = devnode_set(existing@);
            assert(t1 =~= t0.push(paths@[i as int]));
            assert forall|s: Seq<char>| #![auto] devnode_set(r@).contains(s) <==> str_set(t1).difference(ex).contains(s) by {
                if devnode_set(r@).contains(s) {
                    let k = choose|k: int| 0 <= k < r@.len() && r@[k].1.devnode@ == s;
                    if k < before.len() {
                        assert(devnode_set(before).contains(s));
                        let m = choose|m: int| 0 <= m < t0.len() && t0[m]@ == s;
                        assert(t1[m]@ == s);
                    } else {
                        assert(t1[i as int]@ == s);
                    }
                }
                if str_set(t1).difference(ex).contains(s) {
                    let m = choose|m: int| 0 <= m < t1.len() && t1[m]@ == s;
                    if m < i {
                        assert(t0[m]@ == s);
                        assert(str_set(t0).contains(s));
                        assert(str_set(t0).difference(ex).contains(s));
                        assert(devnode_set(before).contains(s));
                        let k = choose|k: int| 0 <= k < before.len() && before[k].1.devnode@ == s;
                        assert(r@[k] == before[k]);
                    } else if present {
                        assert(s == paths@[i as int]@);
                        assert(!ex.contains(s));
                        assert(devnode_set(before).contains(s));
                        let k = choose|k: int| 0 <= k < before.len() && before[k].1.devnode@ == s;
                        assert(r@[k] == before[k]);
                    } else {
                        assert(r@[before.len() as int].1.devnode@ == s);
                    }
                }
            }
            assert(devnode_set(r@) =~= str_set(t1).difference(ex));
            assert forall|a: int, b: int|
                0 <= a < r@.len() && 0 <= b < r@.len() && a != b implies r@[a].1.devnode@ != r@[b].1.devnode@ by {
                if !present && (a == before.len() || b == before.len()) {
                    let k = if a == before.len() { b } else { a };
                    assert(r@[k] == before[k]);
                    if r@[k].1.devnode@ == paths@[i as int]@ {
                        assert(devnode_set(before).contains(paths@[i as int]@));
                    }
                }
            }
        }
        i = i + 1;
    }
    assert(paths@.take(paths@.len() as int) =~= paths@);
    r
}

/// Every path is absolute.
pub open spec fn all_absolute(paths: Seq<String>) -> bool {
    forall|i: int| 0 <= i < paths.len() ==> is_absolute(#[trigger] paths[i]@)
}

/// Some device of the list has UUID `u`.
pub open spec fn has_dev(v: Seq<(DevUuid, SimDev)>, u: DevUuid) -> bool {
    exists|i: int| 0 <= i < v.len() && #[trigger] v[i].0 == u
}

/// The index of the first device of the list with UUID `u`.
pub open spec fn first_dev(v: Seq<(DevUuid, SimDev)>, u: DevUuid) -> int {
    choose|i: int| 0 <= i < v.len() && v[i].0 == u && forall|j: int| 0 <= j < i ==> #[trigger] v[j].0 != u
}

/// `d` is `old` with user information `info`.
pub open spec fn dev_with_info(d: SimDev, old: SimDev, info: Option<Seq<char>>) -> bool {
    &&& opt_str_view(d.user_info) == info
    &&& d.devnode == old.devnode
    &&& d.hardware_info == old.hardware_info
    &&& d.initialization_time == old.initialization_time
}

/// The index of the first device with UUID `u`, if any.
pub fn find_dev(v: &Vec<(DevUuid, SimDev)>, u: DevUuid) -> (r: Option<usize>)
    ensures
        r is Some <==> has_dev(v@, u),
        r matches Some(i) ==> i == first_dev(v@, u) && i < v@.len() && v@[i as int].0 == u,
{
    let mut i: usize = 0;
    while i < v.len()
        invariant
            i <= v@.len(),
            forall|j: int| 0 <= j < i ==> #[trigger] v@[j].0 != u,
        decreases v@.len() - i,
    {
        if v[i].0.0 == u.0 {
            proof {
                let f = first_dev(v@, u);
                assert(0 <= i < v@.len() && v@[i as int].0 == u && forall|j: int| 0 <= j < i ==> #[trigger] v@[j].0 != u);
                if f != i {
                    if f < i {
                        assert(v@[f].0 != u);
                    } else {
                        assert(v@[i as int].0 != u);
                    }
                }
            }
            return Some(i);
        }
        i = i + 1;
    }
    None
}

/// Set the user information of the device at index `k`; returns whether it
/// changed.
fn set_dev_info(v: &mut Vec<(DevUuid, SimDev)>, k: usize, user_info: Option<&str>) -> (r: bool)
    requires
        k < old(v)@.len(),
    ensures
        final(v)@.len() == old(v)@.len(),
        forall|j: int| 0 <= j < old(v)@.len() && j != k ==> #[trigger] final(v)@[j] == old(v)@[j],
        final(v)@[k as int].0 == old(v)@[k as int].0,
        dev_with_info(final(v)@[k as int].1, old(v)@[k as int].1, match user_info {
            Some(u) => Some(u@),
            None => None::<Seq<char>>,
        }),
        r == (opt_str_view(old(v)@[k as int].1.user_info) != match user_info {
            Some(u) => Some(u@),
            None => None::<Seq<char>>,
        }),
{
    let mut entry = v.remove(k);
    let changed = entry.1.set_user_info(user_info);
    v.insert(k, entry);
    changed
}

/// The device nodes of a list of devices, in order.
pub fn devnode_list(v: &Vec<(DevUuid, SimDev)>) -> (r: Vec<String>)
    ensures
        str_set(r@) == devnode_set(v@),
        r@.len() == v@.len(),
        forall|k: int| 0 <= k < v@.len() ==> (#[trigger] r@[k])@ == v@[k].1.devnode@,
{
    let mut r: Vec<String> = Vec::new();
    let mut i: usize = 0;
    while i < v.len()
        invariant
            i <= v@.len(),
            r@.len() == i,
            forall|k: int| 0 <= k < i ==> (#[trigger] r@[k])@ == v@[k].1.devnode@,
        decreases v@.len() - i,
    {
        r.push(v[i].1.devnode.clone());
        i = i + 1;
    }
    proof {
        assert forall|s: Seq<char>| str_set(r@).contains(s) <==> devnode_set(v@).contains(s) by {
            if str_set(r@).contains(s) {
                let k = choose|k: int| 0 <= k < r@.len() && r@[k]@ == s;
                assert(v@[k].1.devnode@ == s);
            }
            if devnode_set(v@).contains(s) {
                let k = choose|k: int| 0 <= k < v@.len() && v@[k].1.devnode@ == s;
                assert(r@[k]@ == s);
            }
        }
        assert(str_set(r@) =~= devnode_set(v@));
    }
    r
}

/// Whether `u` is in the list.
pub fn contains_fs_uuid(v: &Vec<FilesystemUuid>, u: FilesystemUuid) -> (r: bool)
    ensures
        r == v@.contains(u),
{
    let mut i: usize = 0;
    while i < v.len()
        invariant
            i <= v@.len(),
            forall|j: int| 0 <= j < i ==> v@[j] != u,
        decreases v@.len() - i,
    {
        if v[i].0 == u.0 {
            return true;
        }
        i = i + 1;
    }
    false
}

/// Whether `u` is in the list.
pub fn contains_u128(v: &Vec<u128>, u: u128) -> (r: bool)
    ensures
        r == v@.contains(u),
{
    let mut i: usize = 0;
    while i < v.len()
        invariant
            i <= v@.len(),
            forall|j: int| 0 <= j < i ==> v@[j] != u,
        decreases v@.len() - i,
    {
        if v[i] == u {
            return true;
        }
        i = i + 1;
    }
    false
}

/// Whether some device of the list is at `devnode`.
pub fn contains_devnode(v: &Vec<(DevUuid, SimDev)>, devnode: &String) -> (r: bool)
    ensures
        r == devnode_set(v@).contains(devnode@),
{
    let mut i: usize = 0;
    while i < v.len()
        invariant
            i <= v@.len(),
            forall|j: int| 0 <= j < i ==> v@[j].1.devnode@ != devnode@,
        decreases v@.len() - i,
    {
        if v[i].1.devnode.eq(devnode) {
            return true;
        }
        i = i + 1;
    }
    false
}

} // verus!
