use vstd::prelude::*;
use crate::errors::{ErrorReason, StratisError};
use crate::integrity::{integrity_validation, validate_integrity_spec, IntegritySpec};
use crate::keys::{InputEncryptionInfo, MechanismView, PoolEncryptionInfo, TokenUnlockMethod};
use crate::names::{name_violation, validate_name};
use crate::outside::new_uuid_v4;
use crate::shared::{create_pool_idempotent_or_err, str_set, validate_paths};
use crate::sim_engine::blockdev::StratSigblockVersion;
use crate::sim_engine::keys::SimKeyActions;
use crate::sim_engine::pool::{all_absolute, devnode_list, devnode_set, lemma_distinct_devnodes_len, SimPool, UUID_ATTEMPTS};
use crate::sim_engine::shared::{convert_encryption_info, converted, reports, ConvertFailure};
use crate::table::{has_name, names_unique, uuid_of_name, Table};
use crate::types::{
    BlockDevTier, CreateAction, DeleteAction, DevUuid, PoolIdentifier, PoolUuid, RenameAction, StartAction, StopAction,
};

verus! {

/// The pools of a map with their names, by UUID.
pub type PoolMap = Map<u128, (Seq<char>, SimPool)>;

/// The UUID of the pool of `m` that `id` names, if there is one.
pub open spec fn id_uuid(m: PoolMap, id: PoolIdentifier) -> Option<u128> {
    match id {
        PoolIdentifier::Name(n) => if has_name(m, n@) {
            Some(uuid_of_name(m, n@))
        } else {
            None
        },
        PoolIdentifier::Uuid(u) => if m.dom().contains(u.0) {
            Some(u.0)
        } else {
            None
        },
    }
}

/// The map without the item named `n`, if it has one.
pub open spec fn without_name(m: PoolMap, n: Seq<char>) -> PoolMap {
    if has_name(m, n) {
        m.remove(uuid_of_name(m, n))
    } else {
        m
    }
}

/// Removing the item named `n` from a map whose names are distinct leaves
/// the map without that name.
proof fn lemma_remove_named(m: PoolMap, n: Seq<char>, removed: Option<(u128, SimPool)>, after: PoolMap)
    requires
        names_unique(m),
        removed is Some == has_name(m, n),
        removed matches Some((u, v)) ==> m.dom().contains(u) && m[u].0 == n && after == m.remove(u),
        removed is None ==> after == m,
    ensures
        after == without_name(m, n),
        !has_name(after, n),
        forall|w: u128| #[trigger] after.dom().contains(w) ==> m.dom().contains(w) && after[w] == m[w],
{
    if has_name(m, n) {
        let c = uuid_of_name(m, n);
        assert(m.dom().contains(c) && m[c].0 == n);
        let (u, _) = removed->0;
        assert(u == c);
        if has_name(after, n) {
            let w = choose|w: u128| #[trigger] after.dom().contains(w) && after[w].0 == n;
            assert(m.dom().contains(w) && w != c);
        }
    }
}

/// The map after an item is put in under UUID `u` and name `n`: any item
/// with that name or that UUID is displaced.
pub open spec fn displacing_insert(m: PoolMap, u: u128, n: Seq<char>, p: SimPool) -> PoolMap {
    without_name(m, n).insert(u, (n, p))
}

/// The unlock methods requested for a new pool, checked against the keys
/// `keys` of the keyring.
pub open spec fn requested_slots(enc: Option<&InputEncryptionInfo>, keys: Set<Seq<char>>) -> Result<
    Option<Map<u32, MechanismView>>,
    ConvertFailure,
> {
    match enc {
        None => Ok(None),
        Some(ei) => match converted(ei.entries(), Some(keys)) {
            Ok(m) => Ok(Some(m)),
            Err(f) => Err(f),
        },
    }
}

/// What is reported of a stopped pool: its name and UUID, its encryption
/// information, the device node and UUID of each of its devices, the
/// metadata version of its devices and whether it is encrypted.
#[derive(Debug)]
pub struct StoppedPoolInfo {
    pub name: String,
    pub uuid: PoolUuid,
    pub info: Option<PoolEncryptionInfo>,
    pub devices: Vec<(String, DevUuid)>,
    pub metadata_version: StratSigblockVersion,
    pub encrypted: bool,
}

/// The report of a stopped pool agrees with the pool.
pub open spec fn reports_stopped(r: StoppedPoolInfo, name: Seq<char>, p: SimPool) -> bool {
    &&& r.name@ == name
    &&& r.encrypted == p.encryption_info is Some
    &&& r.metadata_version == StratSigblockVersion::V2
    &&& p.encryption_info is None ==> r.info is None
    &&& p.encryption_info matches Some(ei) ==> (r.info matches Some(PoolEncryptionInfo::Consistent(e)) && e.slots() == ei.slots())
    &&& r.devices@.len() == p.block_devs@.len() + p.cache_devs@.len()
    &&& forall|k: int| 0 <= k < p.block_devs@.len() ==> #[trigger] r.devices@[k].0@ == p.block_devs@[k].1.devnode@
        && r.devices@[k].1 == p.block_devs@[k].0
    &&& forall|k: int| 0 <= k < p.cache_devs@.len() ==> #[trigger] r.devices@[p.block_devs@.len() + k].0@
        == p.cache_devs@[k].1.devnode@ && r.devices@[p.block_devs@.len() + k].1 == p.cache_devs@[k].0
}

/// The simulated engine: its running pools, its stopped pools and its
/// keyring.
#[derive(Debug)]
pub struct SimEngine {
    pub pools: Table<SimPool>,
    pub key_handler: SimKeyActions,
    pub stopped_pools: Table<SimPool>,
}

impl SimEngine {
    /// The running pools.
    pub open spec fn pool_map(&self) -> PoolMap {
        self.pools.map()
    }

    /// The stopped pools.
    pub open spec fn stopped_map(&self) -> PoolMap {
        self.stopped_pools.map()
    }

    /// Both tables, and every pool in them, are well formed.
    pub open spec fn wf(&self) -> bool {
        &&& self.pools.wf()
        &&& self.stopped_pools.wf()
        &&& forall|u: u128| #[trigger] self.pools.map().dom().contains(u) ==> self.pools.map()[u].1.wf()
        &&& forall|u: u128| #[trigger] self.stopped_pools.map().dom().contains(u) ==> self.stopped_pools.map()[u].1.wf()
    }

    /// An engine with no pools and an empty keyring.
    pub fn new() -> (r: SimEngine)
        ensures
            r.wf(),
            r.pool_map() == PoolMap::empty(),
            r.stopped_map() == PoolMap::empty(),
            r.key_handler.key_map() == Map::<Seq<char>, Seq<u8>>::empty(),
    {
        SimEngine { pools: Table::new(), key_handler: SimKeyActions::new(), stopped_pools: Table::new() }
    }

    /// The UUID of the running pool that `id` names.
    pub fn pool_uuid(&self, id: &PoolIdentifier) -> (r: Option<PoolUuid>)
        requires
            self.wf(),
        ensures
            match id_uuid(self.pool_map(), *id) {
                Some(u) => r == Some(PoolUuid(u)),
                None => r is None,
            },
    {
        match id {
            PoolIdentifier::Name(n) => match self.pools.get_by_name(n.as_str()) {
                Some((u, _)) => {
                    proof {
                        self.pools.lemma_wf();
                        let c = uuid_of_name(self.pool_map(), n@);
                        assert(self.pool_map().dom().contains(c) && self.pool_map()[c].0 == n@);
                    }
                    Some(PoolUuid(u))
                },
                None => None,
            },
            PoolIdentifier::Uuid(u) => if self.pools.contains_uuid(u.0) {
                Some(*u)
            } else {
                None
            },
        }
    }

    /// A UUID that no running or stopped pool has: `first` when no pool has
    /// it, else one of the random UUIDs drawn in its place, if one was free.
    /// `None` comes back only when `first` was taken and so was every
    /// UUID drawn after it.
    pub fn fresh_pool_uuid(&self, first: u128) -> (r: Option<u128>)
        requires
            self.wf(),
        ensures
            r matches Some(u) ==> !self.pool_map().dom().contains(u) && !self.stopped_map().dom().contains(u),
            !self.pool_map().dom().contains(first) && !self.stopped_map().dom().contains(first) ==> r == Some(first),
            r is None ==> self.pool_map().dom().contains(first) || self.stopped_map().dom().contains(first),
    {
        let mut u = first;
        let mut tries: u32 = 0;
        while tries < UUID_ATTEMPTS
            invariant
                self.wf(),
                tries == 0 ==> u == first,
                tries > 0 ==> self.pool_map().dom().contains(first) || self.stopped_map().dom().contains(first),
            decreases UUID_ATTEMPTS - tries,
        {
            if !self.pools.contains_uuid(u) && !self.stopped_pools.contains_uuid(u) {
                return Some(u);
            }
            u = new_uuid_v4();
            tries = tries + 1;
        }
        None
    }

    /// Create a pool named `name` on the devices at `blockdev_paths`. When a
    /// running pool has the name, the request is an idempotent repeat if it
    /// names exactly that pool's data devices, and an error otherwise.
    pub fn create_pool(
        &mut self,
        name: &str,
        blockdev_paths: &Vec<String>,
        encryption_info: Option<&InputEncryptionInfo>,
        integrity_spec: IntegritySpec,
    ) -> (r: Result<CreateAction<PoolUuid>, StratisError>)
        requires
            old(self).wf(),
            encryption_info matches Some(ei) ==> ei.items@.len() < u32::MAX,
        ensures
            final(self).wf(),
            final(self).stopped_map() == old(self).stopped_map(),
            final(self).key_handler == old(self).key_handler,
            !(r matches Ok(CreateAction::Created(_))) ==> final(self).pool_map() == old(self).pool_map(),
            match name_violation(name@, name.len() as nat) {
                Some(v) => r matches Err(StratisError::InvalidName(w, n)) && w == v && n@ == name@,
                None => if !all_absolute(blockdev_paths@) {
                    r matches Err(StratisError::PathsNotAbsolute(_))
                } else {
                    match integrity_validation(integrity_spec) {
                        Err(e) => r == Err::<CreateAction<PoolUuid>, StratisError>(e),
                        Ok(spec) => match requested_slots(encryption_info, old(self).key_handler.key_map().dom()) {
                            Err(f) => r matches Err(e) && reports(e, f),
                            Ok(slots) => {
                                let m = old(self).pool_map();
                                if has_name(m, name@) {
                                    let existing = devnode_set(m[uuid_of_name(m, name@)].1.block_devs@);
                                    if str_set(blockdev_paths@) == existing {
                                        r == Ok::<CreateAction<PoolUuid>, StratisError>(CreateAction::Identity)
                                    } else {
                                        r matches Err(StratisError::PoolDevicesDiffer(n, in_input, in_pool)) && n@ == name@
                                            && str_set(in_input@) == str_set(blockdev_paths@).difference(existing)
                                            && str_set(in_pool@) == existing.difference(str_set(blockdev_paths@))
                                    }
                                } else if blockdev_paths@.len() == 0 {
                                    r == Err::<CreateAction<PoolUuid>, StratisError>(
                                        StratisError::Msg(ErrorReason::NoDevicesForPool),
                                    )
                                } else {
                                    &&& (m.dom().len() == 0 && old(self).stopped_map().dom().len() == 0
                                        ==> r matches Ok(CreateAction::Created(_)))
                                    &&& (r == Err::<CreateAction<PoolUuid>, StratisError>(
                                        StratisError::Msg(ErrorReason::UuidCollision),
                                    ) || (r matches Ok(CreateAction::Created(u)) && {
                                        let p = final(self).pool_map()[u.0].1;
                                        &&& !m.dom().contains(u.0)
                                        &&& !old(self).stopped_map().dom().contains(u.0)
                                        &&& final(self).pool_map() == m.insert(u.0, (name@, p))
                                        &&& devnode_set(p.block_devs@) == str_set(blockdev_paths@)
                                        &&& p.block_devs@.len() == str_set(blockdev_paths@).len()
                                        &&& forall|i: int, j: int|
                                            0 <= i < p.block_devs@.len() && 0 <= j < p.block_devs@.len() && i != j
                                                ==> p.block_devs@[i].1.devnode@ != p.block_devs@[j].1.devnode@
                                        &&& p.cache_devs@.len() == 0
                                        &&& p.fs_map().dom().len() == 0
                                        &&& p.slots() == slots
                                        &&& p.integrity_spec == spec
                                    }))
                                }
                            },
                        },
                    }
                },
            },
    {
        match validate_name(name) {
            Err(e) => {
                return Err(e);
            },
            Ok(()) => {},
        }
        match validate_paths(blockdev_paths) {
            Err(e) => {
                return Err(e);
            },
            Ok(()) => {},
        }
        let spec = match validate_integrity_spec(integrity_spec) {
            Err(e) => {
                return Err(e);
            },
            Ok(s) => s,
        };
        let converted_ei = match convert_encryption_info(encryption_info, Some(&self.key_handler)) {
            Err(e) => {
                return Err(e);
            },
            Ok(c) => c,
        };
        match self.pools.get_by_name(name) {
            Some((u, pool)) => {
                proof {
                    self.pools.lemma_wf();
                    let c = uuid_of_name(self.pool_map(), name@);
                    assert(self.pool_map().dom().contains(c) && self.pool_map()[c].0 == name@);
                    assert(c == u);
                }
                let existing = devnode_list(&pool.block_devs);
                let n = name.to_owned();
                return create_pool_idempotent_or_err(&n, &existing, blockdev_paths);
            },
            None => {},
        }
        if blockdev_paths.len() == 0 {
            return Err(StratisError::Msg(ErrorReason::NoDevicesForPool));
        }
        let (first, pool) = SimPool::new(blockdev_paths, converted_ei.as_ref(), spec);
        let uuid = match self.fresh_pool_uuid(first) {
            Some(u) => u,
            None => {
                proof {
                    self.pools.lemma_wf();
                    self.stopped_pools.lemma_wf();
                }
                return Err(StratisError::Msg(ErrorReason::UuidCollision));
            },
        };
        let ghost m = self.pool_map();
        let ghost p = pool;
        self.pools.insert(name.to_owned(), uuid, pool);
        proof {
            lemma_distinct_devnodes_len(p.block_devs@);
            assert(p.fs_map().dom() =~= Set::<u128>::empty());
            assert forall|u: u128| #[trigger] self.pools.map().dom().contains(u) implies self.pools.map()[u].1.wf() by {
                if u != uuid {
                    assert(m.dom().contains(u));
                }
            }
        }
        Ok(CreateAction::Created(PoolUuid(uuid)))
    }

    /// Destroy a running pool; refused while it has filesystems.
    pub fn destroy_pool(&mut self, uuid: PoolUuid) -> (r: Result<DeleteAction<PoolUuid>, StratisError>)
        requires
            old(self).wf(),
        ensures
            final(self).wf(),
            final(self).stopped_map() == old(self).stopped_map(),
            final(self).key_handler == old(self).key_handler,
            !old(self).pool_map().dom().contains(uuid.0) ==> r == Ok::<DeleteAction<PoolUuid>, StratisError>(
                DeleteAction::Identity,
            ) && final(self).pool_map() == old(self).pool_map(),
            old(self).pool_map().dom().contains(uuid.0) && old(self).pool_map()[uuid.0].1.fs_map().dom().len() != 0
                ==> r == Err::<DeleteAction<PoolUuid>, StratisError>(StratisError::Msg(ErrorReason::PoolHasFilesystems))
                && final(self).pool_map() == old(self).pool_map(),
            old(self).pool_map().dom().contains(uuid.0) && old(self).pool_map()[uuid.0].1.fs_map().dom().len() == 0
                ==> r == Ok::<DeleteAction<PoolUuid>, StratisError>(DeleteAction::Deleted(uuid))
                && final(self).pool_map() == old(self).pool_map().remove(uuid.0),
    {
        let has_fs = match self.pools.get_by_uuid(uuid.0) {
            None => {
                return Ok(DeleteAction::Identity);
            },
            Some((_, pool)) => {
                proof {
                    assert(self.pools.map().dom().contains(uuid.0));
                }
                pool.has_filesystems()
            },
        };
        if has_fs {
            return Err(StratisError::Msg(ErrorReason::PoolHasFilesystems));
        }
        let ghost m = self.pool_map();
        let removed = self.pools.remove_by_uuid(uuid.0);
        proof {
            assert forall|u: u128| #[trigger] self.pools.map().dom().contains(u) implies self.pools.map()[u].1.wf() by {
                assert(m.dom().contains(u));
            }
        }
        match removed {
            Some((_, mut pool)) => match pool.destroy() {
                Ok(()) => Ok(DeleteAction::Deleted(uuid)),
                Err(e) => Err(e),
            },
            None => Ok(DeleteAction::Identity),
        }
    }

    /// Rename a running pool: nothing to do when no pool has the UUID or the
    /// name is unchanged; refused when another running pool has the name.
    pub fn rename_pool(&mut self, uuid: PoolUuid, new_name: &str) -> (r: Result<RenameAction<PoolUuid>, StratisError>)
        requires
            old(self).wf(),
        ensures
            final(self).wf(),
            final(self).stopped_map() == old(self).stopped_map(),
            final(self).key_handler == old(self).key_handler,
            !old(self).pool_map().dom().contains(uuid.0) ==> r == Ok::<RenameAction<PoolUuid>, StratisError>(
                RenameAction::NoSource,
            ) && final(self).pool_map() == old(self).pool_map(),
            old(self).pool_map().dom().contains(uuid.0) ==> {
                let m = old(self).pool_map();
                if m[uuid.0].0 == new_name@ {
                    r == Ok::<RenameAction<PoolUuid>, StratisError>(RenameAction::Identity)
                        && final(self).pool_map() == m
                } else if has_name(m, new_name@) {
                    r matches Err(StratisError::NameTaken(n)) && n@ == new_name@ && final(self).pool_map() == m
                } else {
                    r == Ok::<RenameAction<PoolUuid>, StratisError>(RenameAction::Renamed(uuid))
                        && final(self).pool_map() == m.insert(uuid.0, (new_name@, m[uuid.0].1))
                }
            },
    {
        let same = match self.pools.get_by_uuid(uuid.0) {
            None => {
                return Ok(RenameAction::NoSource);
            },
            Some((old_name, _)) => crate::table::str_eq(old_name.as_str(), new_name),
        };
        if same {
            return Ok(RenameAction::Identity);
        }
        if self.pools.contains_name(new_name) {
            return Err(StratisError::NameTaken(new_name.to_owned()));
        }
        let ghost m = self.pool_map();
        let (_, pool) = self.pools.remove_by_uuid(uuid.0).unwrap();
        proof {
            self.pools.lemma_wf();
            assert(!has_name(self.pool_map(), new_name@));
        }
        self.pools.insert(new_name.to_owned(), uuid.0, pool);
        proof {
            assert(self.pool_map() =~= m.insert(uuid.0, (new_name@, m[uuid.0].1)));
            assert forall|u: u128| #[trigger] self.pools.map().dom().contains(u) implies self.pools.map()[u].1.wf() by {
                assert(m.dom().contains(u));
            }
        }
        Ok(RenameAction::Renamed(uuid))
    }

    /// The name, UUID and state of the running pool that `id` names.
    pub fn get_pool(&self, id: &PoolIdentifier) -> (r: Option<(&String, PoolUuid, &SimPool)>)
        requires
            self.wf(),
        ensures
            r is Some == id_uuid(self.pool_map(), *id) is Some,
            r matches Some((n, u, p)) ==> id_uuid(self.pool_map(), *id) == Some(u.0) && n@ == self.pool_map()[u.0].0
                && *p == self.pool_map()[u.0].1,
    {
        match self.pool_uuid(id) {
            None => None,
            Some(u) => match self.pools.get_by_uuid(u.0) {
                Some((n, p)) => Some((n, u, p)),
                None => None,
            },
        }
    }

    /// Mutable access to the running pool that `id` names.
    pub fn get_mut_pool(&mut self, id: &PoolIdentifier) -> (r: Option<&mut SimPool>)
        requires
            old(self).wf(),
        ensures
            r is Some == id_uuid(old(self).pool_map(), *id) is Some,
            final(self).stopped_map() == old(self).stopped_map(),
            final(self).key_handler == old(self).key_handler,
            final(self).pools.wf(),
            final(self).stopped_pools.wf(),
            match r {
                Some(p) => {
                    let u = id_uuid(old(self).pool_map(), *id)->0;
                    &&& *p == old(self).pool_map()[u].1
                    &&& final(self).pool_map() == old(self).pool_map().insert(u, (old(self).pool_map()[u].0, *final(p)))
                    &&& final(p).wf() ==> final(self).wf()
                },
                None => *final(self) == *old(self),
            },
    {
        match self.pool_uuid(id) {
            None => None,
            Some(u) => {
                self.pools.get_mut_by_uuid(u.0)
            },
        }
    }

    /// What is reported of each stopped pool, each once.
    pub fn stopped_pools(&self) -> (r: Vec<StoppedPoolInfo>)
        requires
            self.wf(),
        ensures
            forall|u: u128| #[trigger] self.stopped_map().dom().contains(u) <==> exists|i: int|
                0 <= i < r@.len() && (#[trigger] r@[i]).uuid.0 == u,
            forall|i: int| 0 <= i < r@.len() ==> {
                let u = (#[trigger] r@[i]).uuid.0;
                &&& self.stopped_map().dom().contains(u)
                &&& reports_stopped(r@[i], self.stopped_map()[u].0, self.stopped_map()[u].1)
            },
            forall|i: int, j: int| 0 <= i < r@.len() && 0 <= j < r@.len() && i != j ==> r@[i].uuid != r@[j].uuid,
    {
        let uuids = self.stopped_pools.uuids();
        let mut r: Vec<StoppedPoolInfo> = Vec::new();
        let mut i: usize = 0;
        while i < uuids.len()
            invariant
                self.wf(),
                i <= uuids@.len(),
                r@.len() == i,
                forall|u: u128| #[trigger] self.stopped_map().dom().contains(u) <==> uuids@.contains(u),
                forall|a: int, b: int| 0 <= a < uuids@.len() && 0 <= b < uuids@.len() && a != b ==> uuids@[a] != uuids@[b],
                forall|k: int| 0 <= k < i ==> {
                    let u = (#[trigger] r@[k]).uuid.0;
                    &&& u == uuids@[k]
                    &&& self.stopped_map().dom().contains(u)
                    &&& reports_stopped(r@[k], self.stopped_map()[u].0, self.stopped_map()[u].1)
                },
            decreases uuids@.len() - i,
        {
            let u = uuids[i];
            proof {
                assert(uuids@.contains(u));
            }
            match self.stopped_pools.get_by_uuid(u) {
                Some((n, pool)) => {
                    let bds = pool.blockdevs();
                    let mut devices: Vec<(String, DevUuid)> = Vec::new();
                    let mut k: usize = 0;
                    while k < bds.len()
                        invariant
                            k <= bds@.len(),
                            devices@.len() == k,
                            forall|j: int| 0 <= j < k ==> #[trigger] devices@[j].0@ == bds@[j].2.devnode@ && devices@[j].1 == bds@[j].0,
                        decreases bds@.len() - k,
                    {
                        devices.push((bds[k].2.devnode().clone(), bds[k].0));
                        k = k + 1;
                    }
                    let info = StoppedPoolInfo {
                        name: n.clone(),
                        uuid: PoolUuid(u),
                        info: pool.encryption_info_legacy(),
                        devices,
                        metadata_version: StratSigblockVersion::V2,
                        encrypted: pool.is_encrypted(),
                    };
                    proof {
                        let p = self.stopped_map()[u].1;
                        assert forall|k: int| 0 <= k < p.block_devs@.len() implies #[trigger] info.devices@[k].0@ == p.block_devs@[k].1.devnode@
                            && info.devices@[k].1 == p.block_devs@[k].0 by {
                            assert(bds@[k] == (p.block_devs@[k].0, BlockDevTier::Data, &p.block_devs@[k].1));
                        }
                        assert forall|k: int| 0 <= k < p.cache_devs@.len() implies #[trigger] info.devices@[p.block_devs@.len() + k].0@
                            == p.cache_devs@[k].1.devnode@ && info.devices@[p.block_devs@.len() + k].1 == p.cache_devs@[k].0 by {
                            assert(bds@[p.block_devs@.len() + k] == (p.cache_devs@[k].0, BlockDevTier::Cache, &p.cache_devs@[k].1));
                        }
                    }
                    r.push(info);
                },
                None => {
                    proof {
                        assert(false);
                    }
                },
            }
            i = i + 1;
        }
        proof {
            assert forall|u: u128| #[trigger] self.stopped_map().dom().contains(u) implies exists|k: int|
                0 <= k < r@.len() && (#[trigger] r@[k]).uuid.0 == u by {
                let k = choose|k: int| 0 <= k < uuids@.len() && uuids@[k] == u;
                assert(r@[k].uuid.0 == u);
            }
        }
        r
    }

    /// Stop a running pool; nothing to do when a stopped pool has the
    /// identifier already. A stopped pool with the same name is displaced.
    pub fn stop_pool(&mut self, id: &PoolIdentifier) -> (r: Result<StopAction<PoolUuid>, StratisError>)
        requires
            old(self).wf(),
        ensures
            final(self).wf(),
            final(self).key_handler == old(self).key_handler,
            r is Err || r == Ok::<StopAction<PoolUuid>, StratisError>(StopAction::Identity) ==> final(self).pool_map()
                == old(self).pool_map() && final(self).stopped_map() == old(self).stopped_map(),
            id_uuid(old(self).stopped_map(), *id) is Some ==> r == Ok::<StopAction<PoolUuid>, StratisError>(
                StopAction::Identity,
            ),
            id_uuid(old(self).stopped_map(), *id) is None && id_uuid(old(self).pool_map(), *id) is None ==> r
                == Err::<StopAction<PoolUuid>, StratisError>(StratisError::Msg(ErrorReason::PoolNotFound)),
            id_uuid(old(self).stopped_map(), *id) is None && id_uuid(old(self).pool_map(), *id) is Some ==> {
                let u = id_uuid(old(self).pool_map(), *id)->0;
                let (n, p) = old(self).pool_map()[u];
                &&& r == Ok::<StopAction<PoolUuid>, StratisError>(StopAction::Stopped(PoolUuid(u)))
                &&& final(self).pool_map() == old(self).pool_map().remove(u)
                &&& final(self).stopped_map() == displacing_insert(old(self).stopped_map(), u, n, p)
            },
    {
        let stopped = match id {
            PoolIdentifier::Name(n) => self.stopped_pools.contains_name(n.as_str()),
            PoolIdentifier::Uuid(u) => self.stopped_pools.contains_uuid(u.0),
        };
        if stopped {
            return Ok(StopAction::Identity);
        }
        let u = match self.pool_uuid(id) {
            None => {
                return Err(StratisError::Msg(ErrorReason::PoolNotFound));
            },
            Some(u) => u,
        };
        let ghost m = self.pool_map();
        let ghost sm = self.stopped_map();
        let (name, pool) = self.pools.remove_by_uuid(u.0).unwrap();
        proof {
            self.stopped_pools.lemma_wf();
        }
        let displaced = self.stopped_pools.remove_by_name(name.as_str());
        let ghost sm1 = self.stopped_map();
        proof {
            lemma_remove_named(sm, name@, displaced, sm1);
        }
        let _ = self.stopped_pools.remove_by_uuid(u.0);
        self.stopped_pools.insert(name, u.0, pool);
        proof {
            assert(sm1 == without_name(sm, m[u.0].0));
            assert(self.stopped_map() =~= displacing_insert(sm, u.0, m[u.0].0, m[u.0].1));
            assert forall|w: u128| #[trigger] self.pools.map().dom().contains(w) implies self.pools.map()[w].1.wf() by {
                assert(m.dom().contains(w));
            }
            assert forall|w: u128| #[trigger] self.stopped_pools.map().dom().contains(w) implies self.stopped_pools.map()[w].1.wf() by {
                if w != u.0 {
                    assert(sm1.dom().contains(w));
                    assert(sm.dom().contains(w));
                }
            }
        }
        Ok(StopAction::Stopped(u))
    }

    /// Start a stopped pool. An encrypted pool needs an unlock method; a
    /// pool that is not encrypted takes neither an unlock method nor a
    /// passphrase. Nothing to do for a running pool with consistent
    /// arguments. A running pool with the same name is displaced.
    pub fn start_pool(&mut self, id: &PoolIdentifier, token_slot: TokenUnlockMethod, passphrase_given: bool) -> (r: Result<
        StartAction<PoolUuid>,
        StratisError,
    >)
        requires
            old(self).wf(),
        ensures
            final(self).wf(),
            final(self).key_handler == old(self).key_handler,
            !(r matches Ok(StartAction::Started(_))) ==> final(self).pool_map() == old(self).pool_map()
                && final(self).stopped_map() == old(self).stopped_map(),
            match id_uuid(old(self).pool_map(), *id) {
                Some(u) => {
                    let p = old(self).pool_map()[u].1;
                    if p.encryption_info is None && !(token_slot is NoMethod) {
                        r == Err::<StartAction<PoolUuid>, StratisError>(StratisError::Msg(ErrorReason::PoolNotEncryptedUnlock))
                    } else if p.encryption_info is None && passphrase_given {
                        r == Err::<StartAction<PoolUuid>, StratisError>(StratisError::Msg(ErrorReason::PoolNotEncryptedPassphrase))
                    } else {
                        r == Ok::<StartAction<PoolUuid>, StratisError>(StartAction::Identity)
                    }
                },
                None => match id_uuid(old(self).stopped_map(), *id) {
                    None => r == Err::<StartAction<PoolUuid>, StratisError>(StratisError::Msg(ErrorReason::PoolNotFound)),
                    Some(u) => {
                        let (n, p) = old(self).stopped_map()[u];
                        if p.encryption_info is Some && token_slot is NoMethod {
                            r == Err::<StartAction<PoolUuid>, StratisError>(StratisError::Msg(ErrorReason::PoolEncryptedNoUnlock))
                        } else if p.encryption_info is None && !(token_slot is NoMethod) {
                            r == Err::<StartAction<PoolUuid>, StratisError>(StratisError::Msg(ErrorReason::PoolNotEncryptedUnlock))
                        } else if p.encryption_info is None && passphrase_given {
                            r == Err::<StartAction<PoolUuid>, StratisError>(StratisError::Msg(ErrorReason::PoolNotEncryptedPassphrase))
                        } else {
                            &&& r == Ok::<StartAction<PoolUuid>, StratisError>(StartAction::Started(PoolUuid(u)))
                            &&& final(self).stopped_map() == old(self).stopped_map().remove(u)
                            &&& final(self).pool_map() == displacing_insert(old(self).pool_map(), u, n, p)
                        }
                    },
                },
            },
    {
        let has_method = token_slot.is_some();
        match self.get_pool(id) {
            Some((_, _, pool)) => {
                let encrypted = pool.is_encrypted();
                if !encrypted && has_method {
                    return Err(StratisError::Msg(ErrorReason::PoolNotEncryptedUnlock));
                } else if !encrypted && passphrase_given {
                    return Err(StratisError::Msg(ErrorReason::PoolNotEncryptedPassphrase));
                } else {
                    return Ok(StartAction::Identity);
                }
            },
            None => {},
        }
        let u = match self.stopped_uuid(id) {
            None => {
                return Err(StratisError::Msg(ErrorReason::PoolNotFound));
            },
            Some(u) => u,
        };
        let encrypted = match self.stopped_pools.get_by_uuid(u) {
            Some((_, p)) => p.is_encrypted(),
            None => false,
        };
        if encrypted && !has_method {
            return Err(StratisError::Msg(ErrorReason::PoolEncryptedNoUnlock));
        } else if !encrypted && has_method {
            return Err(StratisError::Msg(ErrorReason::PoolNotEncryptedUnlock));
        } else if !encrypted && passphrase_given {
            return Err(StratisError::Msg(ErrorReason::PoolNotEncryptedPassphrase));
        }
        let ghost m = self.pool_map();
        let ghost sm = self.stopped_map();
        let (name, pool) = self.stopped_pools.remove_by_uuid(u).unwrap();
        proof {
            self.pools.lemma_wf();
        }
        let displaced = self.pools.remove_by_name(name.as_str());
        let ghost m1 = self.pool_map();
        proof {
            lemma_remove_named(m, name@, displaced, m1);
        }
        let _ = self.pools.remove_by_uuid(u);
        self.pools.insert(name, u, pool);
        proof {
            assert(m1 == without_name(m, sm[u].0));
            assert(self.pool_map() =~= displacing_insert(m, u, sm[u].0, sm[u].1));
            assert forall|w: u128| #[trigger] self.pools.map().dom().contains(w) implies self.pools.map()[w].1.wf() by {
                if w != u {
                    assert(m1.dom().contains(w));
                    assert(m.dom().contains(w));
                }
            }
            assert forall|w: u128| #[trigger] self.stopped_pools.map().dom().contains(w) implies self.stopped_pools.map()[w].1.wf() by {
                assert(sm.dom().contains(w));
            }
        }
        Ok(StartAction::Started(PoolUuid(u)))
    }

    /// The UUID of the stopped pool that `id` names.
    fn stopped_uuid(&self, id: &PoolIdentifier) -> (r: Option<u128>)
        requires
            self.wf(),
        ensures
            r == id_uuid(self.stopped_map(), *id),
    {
        match id {
            PoolIdentifier::Name(n) => match self.stopped_pools.get_by_name(n.as_str()) {
                Some((u, _)) => {
                    proof {
                        self.stopped_pools.lemma_wf();
                        let c = uuid_of_name(self.stopped_map(), n@);
                        assert(self.stopped_map().dom().contains(c) && self.stopped_map()[c].0 == n@);
                    }
                    Some(u)
                },
                None => None,
            },
            PoolIdentifier::Uuid(u) => if self.stopped_pools.contains_uuid(u.0) {
                Some(u.0)
            } else {
                None
            },
        }
    }
}

} // verus!
