//! Deciding which block devices may be initialized for a pool.

use vstd::prelude::*;
use crate::errors::{ErrorReason, StratisError};
use crate::shared::{str_difference, str_set, strs_distinct};
use crate::types::{DevUuid, PoolUuid, StratisIdentifiers};
use crate::units::{Bytes, GI};

verus! {

/// The smallest device Stratis initializes, in bytes.
pub const MIN_DEV_SIZE: u128 = 1073741824;

/// What the udev database says of a block device's owner.
#[derive(Debug, Clone, Copy, PartialEq, Eq, Structural)]
pub enum UdevOwnership {
    Luks,
    MultipathMember,
    Stratis,
    Theirs,
    Unowned,
}

/// What is known of a device that may be initialized: its device number,
/// its device node, its hardware identifier (the ID_WWN udev property, which
/// may be absent or not decodable) and its size.
#[derive(Debug)]
pub struct DeviceInfo {
    pub devno: u64,
    pub devnode: String,
    pub id_wwn: Option<Result<String, StratisError>>,
    pub size: Bytes,
}

/// Refuse a device that udev reports as belonging to something other than
/// Stratis; devices it reports as Stratis or unowned are examined further.
pub fn check_udev_ownership(ownership: UdevOwnership) -> (r: Result<(), StratisError>)
    ensures
        match ownership {
            UdevOwnership::Stratis | UdevOwnership::Unowned => r is Ok,
            _ => r == Err::<(), StratisError>(StratisError::Msg(ErrorReason::DeviceOwnedByOther)),
        },
{
    match ownership {
        UdevOwnership::Stratis | UdevOwnership::Unowned => Ok(()),
        _ => Err(StratisError::Msg(ErrorReason::DeviceOwnedByOther)),
    }
}

/// What a probe of the device found is acceptable: no partitions, and no
/// superblock or a Stratis one.
pub open spec fn probe_acceptable(num_parts: Option<i32>, superblock_type: Option<Seq<char>>) -> bool {
    &&& !(num_parts matches Some(n) && n > 0)
    &&& (superblock_type is None || superblock_type == Some("stratis"@))
}

/// What the probe decides of a device: any partition at all, or any
/// superblock other than a Stratis one, makes it unsuitable, whatever else
/// was found; with no partition and no superblock, or only a Stratis one,
/// it is suitable.
pub proof fn law_probe_decision(num_parts: Option<i32>, superblock_type: Option<Seq<char>>)
    ensures
        (num_parts matches Some(n) && n >= 1) ==> !probe_acceptable(num_parts, superblock_type),
        (superblock_type matches Some(t) && t != "stratis"@) ==> !probe_acceptable(num_parts, superblock_type),
        !(num_parts matches Some(n) && n >= 1) ==> probe_acceptable(num_parts, None)
            && probe_acceptable(num_parts, Some("stratis"@)),
{
}

/// Refuse a device on which a probe found partitions or a superblock other
/// than a Stratis one.
pub fn check_probe(num_parts: Option<i32>, superblock_type: Option<&str>) -> (r: Result<(), StratisError>)
    ensures
        probe_acceptable(num_parts, match superblock_type {
            Some(s) => Some(s@),
            None => None,
        }) ==> r is Ok,
        !probe_acceptable(num_parts, match superblock_type {
            Some(s) => Some(s@),
            None => None,
        }) ==> r == Err::<(), StratisError>(StratisError::Msg(ErrorReason::DeviceHasSignature)),
{
    let has_parts = match num_parts {
        Some(n) => n > 0,
        None => false,
    };
    let stratis_or_none = match superblock_type {
        Some(s) => crate::table::str_eq(s, "stratis"),
        None => true,
    };
    if !stratis_or_none || has_parts {
        Err(StratisError::Msg(ErrorReason::DeviceHasSignature))
    } else {
        Ok(())
    }
}

/// Refuse a device that udev reports as a Stratis device when its metadata
/// holds no Stratis identifiers.
pub fn check_identifiers(ownership: UdevOwnership, identifiers: Option<StratisIdentifiers>) -> (r: Result<
    (),
    StratisError,
>)
    ensures
        ownership == UdevOwnership::Stratis && identifiers is None ==> r == Err::<(), StratisError>(
            StratisError::Msg(ErrorReason::StratisWithoutMetadata),
        ),
        !(ownership == UdevOwnership::Stratis && identifiers is None) ==> r is Ok,
{
    match (ownership, identifiers) {
        (UdevOwnership::Stratis, None) => Err(StratisError::Msg(ErrorReason::StratisWithoutMetadata)),
        _ => Ok(()),
    }
}

/// The device paths of a request, each once, in order of first mention.
pub fn unique_paths(paths: &Vec<String>) -> (r: Vec<String>)
    ensures
        str_set(r@) == str_set(paths@),
        strs_distinct(r@),
{
    let none: Vec<String> = Vec::new();
    let r = str_difference(paths, &none);
    proof {
        assert(str_set(paths@).difference(str_set(none@)) =~= str_set(paths@));
    }
    r
}

/// Two of the devices have the same device number.
pub open spec fn devno_repeated(infos: Seq<DeviceInfo>) -> bool {
    exists|i: int, j: int| 0 <= i < infos.len() && 0 <= j < infos.len() && i != j && #[trigger] infos[i].devno == #[trigger] infos[j].devno
}

/// Refuse devices of which two have the same device number.
pub fn check_duplicate_devnos(infos: &Vec<DeviceInfo>) -> (r: Result<(), StratisError>)
    ensures
        devno_repeated(infos@) ==> r == Err::<(), StratisError>(StratisError::Msg(ErrorReason::DuplicateDeviceNumber)),
        !devno_repeated(infos@) ==> r is Ok,
{
    let n = infos.len();
    let mut i: usize = 0;
    while i < n
        invariant
            n == infos@.len(),
            i <= n,
            forall|a: int, b: int| 0 <= a < i && 0 <= b < n && a != b ==> infos@[a].devno != infos@[b].devno,
        decreases n - i,
    {
        let mut j: usize = 0;
        while j < n
            invariant
                n == infos@.len(),
                i < n,
                j <= n,
                forall|a: int, b: int| 0 <= a < i && 0 <= b < n && a != b ==> infos@[a].devno != infos@[b].devno,
                forall|b: int| 0 <= b < j && b != i ==> infos@[i as int].devno != infos@[b].devno,
            decreases n - j,
        {
            if j != i && infos[i].devno == infos[j].devno {
                return Err(StratisError::Msg(ErrorReason::DuplicateDeviceNumber));
            }
            j = j + 1;
        }
        i = i + 1;
    }
    Ok(())
}

/// The devices of a request that carry no Stratis identifiers, in order.
pub open spec fn free_of(s: Seq<(DeviceInfo, Option<StratisIdentifiers>)>) -> Seq<DeviceInfo> {
    s.filter_map(|e: (DeviceInfo, Option<StratisIdentifiers>)| if e.1 is None { Some(e.0) } else { None })
}

/// The devices of a request that Stratis identifiers place in `pool`, with
/// their device UUIDs, in order.
pub open spec fn members_of(s: Seq<(DeviceInfo, Option<StratisIdentifiers>)>, pool: PoolUuid) -> Seq<(DevUuid, DeviceInfo)> {
    s.filter_map(
        |e: (DeviceInfo, Option<StratisIdentifiers>)|
            match e.1 {
                Some(ids) => if ids.pool_uuid == pool {
                    Some((ids.device_uuid, e.0))
                } else {
                    None
                },
                None => None,
            },
    )
}

/// The device carries identifiers of `pool`.
pub open spec fn names_pool(e: (DeviceInfo, Option<StratisIdentifiers>), pool: PoolUuid) -> bool {
    match e.1 {
        Some(ids) => ids.pool_uuid == pool,
        None => false,
    }
}

/// Some device of the request carries identifiers of `pool`.
pub open spec fn pool_mentioned(s: Seq<(DeviceInfo, Option<StratisIdentifiers>)>, pool: PoolUuid) -> bool {
    exists|i: int| 0 <= i < s.len() && names_pool(#[trigger] s[i], pool)
}

/// Some device of the request is smaller than the minimum size.
pub open spec fn too_small_in(s: Seq<(DeviceInfo, Option<StratisIdentifiers>)>) -> bool {
    exists|i: int| 0 <= i < s.len() && (#[trigger] s[i]).0.size.0 < MIN_DEV_SIZE
}

/// The devices of a request, sorted into those that carry Stratis
/// identifiers, grouped by pool, and those that do not.
pub struct ProcessedPaths {
    pub stratis_devices: Vec<(PoolUuid, Vec<(DevUuid, DeviceInfo)>)>,
    pub free_devices: Vec<DeviceInfo>,
}

impl ProcessedPaths {
    /// The groups are by distinct pools, and none is empty.
    pub open spec fn wf(&self) -> bool {
        &&& forall|g: int, h: int|
            0 <= g < self.stratis_devices@.len() && 0 <= h < self.stratis_devices@.len() && g != h
                ==> self.stratis_devices@[g].0 != self.stratis_devices@[h].0
        &&& forall|g: int| 0 <= g < self.stratis_devices@.len() ==> (#[trigger] self.stratis_devices@[g]).1@.len() > 0
    }

    /// The paths sort `s`: the free devices in order, and one group per pool
    /// that a device names, holding that pool's devices in order.
    pub open spec fn sorts(&self, s: Seq<(DeviceInfo, Option<StratisIdentifiers>)>) -> bool {
        &&& self.wf()
        &&& self.free_devices@ == free_of(s)
        &&& forall|g: int| 0 <= g < self.stratis_devices@.len() ==> (#[trigger] self.stratis_devices@[g]).1@ == members_of(
            s,
            self.stratis_devices@[g].0,
        )
        &&& forall|p: PoolUuid| pool_mentioned(s, p) <==> exists|g: int|
            0 <= g < self.stratis_devices@.len() && (#[trigger] self.stratis_devices@[g]).0 == p
    }

    /// The number of devices.
    pub open spec fn count(&self) -> int {
        self.free_devices@.len() + group_sizes(self.stratis_devices@)
    }

    /// Sort the devices of a request; refused if one is smaller than the
    /// minimum size.
    pub fn try_from(devices: Vec<(DeviceInfo, Option<StratisIdentifiers>)>) -> (r: Result<ProcessedPaths, StratisError>)
        ensures
            too_small_in(devices@) ==> r == Err::<ProcessedPaths, StratisError>(StratisError::Msg(ErrorReason::DeviceTooSmall)),
            !too_small_in(devices@) ==> (r matches Ok(p) && p.sorts(devices@)),
    {
        let ghost s = devices@;
        let mut k: usize = 0;
        while k < devices.len()
            invariant
                k <= devices@.len(),
                s == devices@,
                forall|i: int| 0 <= i < k ==> (#[trigger] s[i]).0.size.0 >= MIN_DEV_SIZE,
            decreases devices@.len() - k,
        {
            if devices[k].0.size.0 < MIN_DEV_SIZE {
                proof {
                    assert(too_small_in(s));
                }
                return Err(StratisError::Msg(ErrorReason::DeviceTooSmall));
            }
            k = k + 1;
        }
        let mut devices = devices;
        let mut groups: Vec<(PoolUuid, Vec<(DevUuid, DeviceInfo)>)> = Vec::new();
        let mut free: Vec<DeviceInfo> = Vec::new();
        let ghost mut i: int = 0;
        proof {
            assert(s.take(0) =~= Seq::<(DeviceInfo, Option<StratisIdentifiers>)>::empty());
            assert(s.skip(0) =~= s);
        }
        while devices.len() > 0
            invariant
                0 <= i <= s.len(),
                devices@ == s.skip(i),
                free@ == free_of(s.take(i)),
                forall|g: int, h: int|
                    0 <= g < groups@.len() && 0 <= h < groups@.len() && g != h ==> groups@[g].0 != groups@[h].0,
                forall|g: int| 0 <= g < groups@.len() ==> (#[trigger] groups@[g]).1@.len() > 0,
                forall|g: int| 0 <= g < groups@.len() ==> (#[trigger] groups@[g]).1@ == members_of(s.take(i), groups@[g].0),
                forall|p: PoolUuid| pool_mentioned(s.take(i), p) <==> exists|g: int|
                    0 <= g < groups@.len() && (#[trigger] groups@[g]).0 == p,
            decreases devices@.len(),
        {
            proof {
                assert(s.take(i + 1).drop_last() =~= s.take(i));
                assert(s.take(i + 1).last() == s[i]);
                assert(devices@[0] == s[i]);
            }
            let (info, ids) = devices.remove(0);
            let ghost e = (info, ids);
            let ghost before = groups@;
            match ids {
                None => {
                    free.push(info);
                    proof {
                        assert forall|p: PoolUuid| #[trigger] members_of(s.take(i + 1), p) == members_of(s.take(i), p) by {}
                        assert forall|p: PoolUuid| pool_mentioned(s.take(i + 1), p) <==> pool_mentioned(s.take(i), p) by {
                            if pool_mentioned(s.take(i + 1), p) {
                                let j = choose|j: int| 0 <= j < s.take(i + 1).len() && names_pool(#[trigger] s.take(i + 1)[j], p);
                                assert(s.take(i)[j] == s.take(i + 1)[j]);
                            }
                            if pool_mentioned(s.take(i), p) {
                                let j = choose|j: int| 0 <= j < s.take(i).len() && names_pool(#[trigger] s.take(i)[j], p);
                                assert(s.take(i)[j] == s.take(i + 1)[j]);
                            }
                        }
                        assert forall|p: PoolUuid| #[trigger] pool_mentioned(s.take(i + 1), p) <==> exists|g: int|
                            0 <= g < groups@.len() && (#[trigger] groups@[g]).0 == p by {
                            assert(pool_mentioned(s.take(i + 1), p) <==> pool_mentioned(s.take(i), p));
                        }
                    }
                },
                Some(ident) => {
                    let idx = find_group(&groups, ident.pool_uuid);
                    match idx {
                        Some(g) => {
                            let mut grp = groups.remove(g);
                            grp.1.push((ident.device_uuid, info));
                            groups.insert(g, grp);
                        },
                        None => {
                            let mut members: Vec<(DevUuid, DeviceInfo)> = Vec::new();
                            members.push((ident.device_uuid, info));
                            groups.push((ident.pool_uuid, members));
                        },
                    }
                    proof {
                        let t0 = s.take(i);
                        let t1 = s.take(i + 1);
                        assert forall|p: PoolUuid| #[trigger] members_of(t1, p) == if p == ident.pool_uuid {
                            members_of(t0, p).push((ident.device_uuid, e.0))
                        } else {
                            members_of(t0, p)
                        } by {
                            assert(seq![(ident.device_uuid, e.0)] =~= Seq::<(DevUuid, DeviceInfo)>::empty().push((ident.device_uuid, e.0)));
                        }
                        assert forall|p: PoolUuid| pool_mentioned(t1, p) <==> (pool_mentioned(t0, p) || p == ident.pool_uuid) by {
                            if pool_mentioned(t1, p) {
                                let j = choose|j: int| 0 <= j < t1.len() && names_pool(#[trigger] t1[j], p);
                                if j < i {
                                    assert(t0[j] == t1[j]);
                                }
                            }
                            if pool_mentioned(t0, p) {
                                let j = choose|j: int| 0 <= j < t0.len() && names_pool(#[trigger] t0[j], p);
                                assert(t0[j] == t1[j]);
                            }
                            if p == ident.pool_uuid {
                                assert(t1[i] == e);
                            }
                        }
                        match idx {
                            Some(g) => {
                                assert forall|h: int| 0 <= h < groups@.len() implies (#[trigger] groups@[h]).1@ == members_of(t1, groups@[h].0) by {
                                    if h != g {
                                        assert(groups@[h] == before[h]);
                                        assert(before[h].0 != before[g as int].0);
                                    }
                                }
                                assert forall|p: PoolUuid| pool_mentioned(t1, p) implies exists|h: int|
                                    0 <= h < groups@.len() && (#[trigger] groups@[h]).0 == p by {
                                    if pool_mentioned(t0, p) {
                                        let h = choose|h: int| 0 <= h < before.len() && (#[trigger] before[h]).0 == p;
                                        assert(groups@[h].0 == before[h].0);
                                    } else {
                                        assert(groups@[g as int].0 == p);
                                    }
                                }
                                assert forall|h: int| 0 <= h < groups@.len() implies pool_mentioned(t1, (#[trigger] groups@[h]).0) by {
                                    assert(groups@[h].0 == before[h].0);
                                    assert(pool_mentioned(t0, before[h].0));
                                }
                                assert forall|a: int, b: int|
                                    0 <= a < groups@.len() && 0 <= b < groups@.len() && a != b implies groups@[a].0 != groups@[b].0 by {
                                    assert(groups@[a].0 == before[a].0);
                                    assert(groups@[b].0 == before[b].0);
                                }
                            },
                            None => {
                                assert forall|h: int| 0 <= h < groups@.len() implies (#[trigger] groups@[h]).1@ == members_of(t1, groups@[h].0) by {
                                    if h < before.len() {
                                        assert(groups@[h] == before[h]);
                                    } else {
                                        assert(!pool_mentioned(t0, ident.pool_uuid));
                                        lemma_members_empty(t0, ident.pool_uuid);
                                    }
                                }
                                assert forall|p: PoolUuid| pool_mentioned(t1, p) implies exists|h: int|
                                    0 <= h < groups@.len() && (#[trigger] groups@[h]).0 == p by {
                                    if pool_mentioned(t0, p) {
                                        let h = choose|h: int| 0 <= h < before.len() && (#[trigger] before[h]).0 == p;
                                        assert(groups@[h] == before[h]);
                                    } else {
                                        assert(groups@[before.len() as int].0 == p);
                                    }
                                }
                                assert forall|h: int| 0 <= h < groups@.len() implies pool_mentioned(t1, (#[trigger] groups@[h]).0) by {
                                    if h < before.len() {
                                        assert(groups@[h] == before[h]);
                                        assert(pool_mentioned(t0, before[h].0));
                                    }
                                }
                                assert forall|a: int, b: int|
                                    0 <= a < groups@.len() && 0 <= b < groups@.len() && a != b implies groups@[a].0 != groups@[b].0 by {
                                    if a == before.len() {
                                        assert(groups@[b] == before[b]);
                                        assert(pool_mentioned(t0, before[b].0));
                                    } else if b == before.len() {
                                        assert(groups@[a] == before[a]);
                                        assert(pool_mentioned(t0, before[a].0));
                                    } else {
                                        assert(groups@[a] == before[a]);
                                        assert(groups@[b] == before[b]);
                                    }
                                }
                            },
                        }
                        assert forall|p: PoolUuid| #[trigger] pool_mentioned(t1, p) <==> exists|h: int|
                            0 <= h < groups@.len() && (#[trigger] groups@[h]).0 == p by {
                            if exists|h: int| 0 <= h < groups@.len() && (#[trigger] groups@[h]).0 == p {
                                let h = choose|h: int| 0 <= h < groups@.len() && (#[trigger] groups@[h]).0 == p;
                                assert(pool_mentioned(t1, groups@[h].0));
                            }
                        }
                    }
                },
            }
            proof {
                i = i + 1;
                assert(devices@ =~= s.skip(i));
            }
        }
        proof {
            assert(s.take(i) =~= s);
        }
        Ok(ProcessedPaths { stratis_devices: groups, free_devices: free })
    }

    /// Some device carries identifiers of a pool other than `pool`.
    pub open spec fn other_pool(&self, pool: PoolUuid) -> bool {
        exists|g: int| 0 <= g < self.stratis_devices@.len() && (#[trigger] self.stratis_devices@[g]).0 != pool
    }

    /// Some device carries identifiers of `pool` with a device UUID that is
    /// not in `in_use`.
    pub open spec fn other_tier(&self, pool: PoolUuid, in_use: Seq<DevUuid>) -> bool {
        exists|g: int, k: int|
            0 <= g < self.stratis_devices@.len() && self.stratis_devices@[g].0 == pool && 0 <= k
                < self.stratis_devices@[g].1@.len() && !in_use.contains(
                #[trigger] self.stratis_devices@[g].1@[k].0,
            )
    }

    /// The devices to initialize for `pool`: the free ones. Devices that
    /// already belong to `pool` with a UUID in `in_use` are left out;
    /// refused when a device belongs to another pool, or to `pool` with a
    /// UUID not in `in_use` (it may be in the other tier).
    pub fn into_filtered(self, pool_uuid: PoolUuid, in_use: &Vec<DevUuid>) -> (r: Result<Vec<DeviceInfo>, StratisError>)
        requires
            self.wf(),
        ensures
            self.other_pool(pool_uuid) ==> r == Err::<Vec<DeviceInfo>, StratisError>(
                StratisError::Msg(ErrorReason::DevicesInOtherPool),
            ),
            !self.other_pool(pool_uuid) && self.other_tier(pool_uuid, in_use@) ==> r == Err::<Vec<DeviceInfo>, StratisError>(
                StratisError::Msg(ErrorReason::DevicesInOtherTier),
            ),
            !self.other_pool(pool_uuid) && !self.other_tier(pool_uuid, in_use@) ==> r == Ok::<Vec<DeviceInfo>, StratisError>(
                self.free_devices,
            ),
    {
        let n = self.stratis_devices.len();
        let mut g: usize = 0;
        while g < n
            invariant
                n == self.stratis_devices@.len(),
                g <= n,
                forall|h: int| 0 <= h < g ==> (#[trigger] self.stratis_devices@[h]).0 == pool_uuid,
            decreases n - g,
        {
            if self.stratis_devices[g].0.0 != pool_uuid.0 {
                proof {
                    assert(self.stratis_devices@[g as int].0 != pool_uuid);
                }
                return Err(StratisError::Msg(ErrorReason::DevicesInOtherPool));
            }
            g = g + 1;
        }
        let mut g: usize = 0;
        while g < n
            invariant
                n == self.stratis_devices@.len(),
                g <= n,
                forall|h: int| 0 <= h < n ==> (#[trigger] self.stratis_devices@[h]).0 == pool_uuid,
                forall|h: int, k: int|
                    0 <= h < g && 0 <= k < self.stratis_devices@[h].1@.len() ==> in_use@.contains(
                        #[trigger] self.stratis_devices@[h].1@[k].0,
                    ),
            decreases n - g,
        {
            let members = &self.stratis_devices[g].1;
            let mut k: usize = 0;
            while k < members.len()
                invariant
                    n == self.stratis_devices@.len(),
                    g < n,
                    forall|h: int| 0 <= h < n ==> (#[trigger] self.stratis_devices@[h]).0 == pool_uuid,
                    *members == self.stratis_devices@[g as int].1,
                    k <= members@.len(),
                    forall|j: int| 0 <= j < k ==> in_use@.contains(#[trigger] members@[j].0),
                decreases members@.len() - k,
            {
                if !contains_dev_uuid(in_use, members[k].0) {
                    proof {
                        assert(self.stratis_devices@[g as int].0 == pool_uuid);
                        assert(!in_use@.contains(self.stratis_devices@[g as int].1@[k as int].0));
                        assert(!self.other_pool(pool_uuid));
                    }
                    return Err(StratisError::Msg(ErrorReason::DevicesInOtherTier));
                }
                k = k + 1;
            }
            g = g + 1;
        }
        Ok(self.free_devices)
    }
}

/// Some device of the request carries identifiers of a pool other than
/// `pool`.
pub open spec fn names_other_pool(s: Seq<(DeviceInfo, Option<StratisIdentifiers>)>, pool: PoolUuid) -> bool {
    exists|i: int| 0 <= i < s.len() && (#[trigger] s[i]).1 is Some && s[i].1->0.pool_uuid != pool
}

/// Some device of the request carries identifiers of `pool` with a device
/// UUID not in `in_use`.
pub open spec fn names_unused_member(
    s: Seq<(DeviceInfo, Option<StratisIdentifiers>)>,
    pool: PoolUuid,
    in_use: Seq<DevUuid>,
) -> bool {
    exists|i: int| 0 <= i < s.len() && names_pool(#[trigger] s[i], pool) && !in_use.contains(s[i].1->0.device_uuid)
}

/// Sort the devices of a request and keep those to initialize for `pool`:
/// refused when a device is too small, when a device belongs to another
/// pool, or when a device belongs to `pool` with a UUID that is not among
/// `current_uuids`; otherwise the devices without Stratis identifiers, in
/// order.
pub fn process_and_verify_devices(
    pool_uuid: PoolUuid,
    current_uuids: &Vec<DevUuid>,
    devices: Vec<(DeviceInfo, Option<StratisIdentifiers>)>,
) -> (r: Result<Vec<DeviceInfo>, StratisError>)
    ensures
        too_small_in(devices@) ==> r == Err::<Vec<DeviceInfo>, StratisError>(StratisError::Msg(ErrorReason::DeviceTooSmall)),
        !too_small_in(devices@) && names_other_pool(devices@, pool_uuid) ==> r == Err::<Vec<DeviceInfo>, StratisError>(
            StratisError::Msg(ErrorReason::DevicesInOtherPool),
        ),
        !too_small_in(devices@) && !names_other_pool(devices@, pool_uuid) && names_unused_member(devices@, pool_uuid, current_uuids@)
            ==> r == Err::<Vec<DeviceInfo>, StratisError>(StratisError::Msg(ErrorReason::DevicesInOtherTier)),
        !too_small_in(devices@) && !names_other_pool(devices@, pool_uuid) && !names_unused_member(devices@, pool_uuid, current_uuids@)
            ==> (r matches Ok(v) && v@ == free_of(devices@)),
{
    let ghost s = devices@;
    match ProcessedPaths::try_from(devices) {
        Err(e) => Err(e),
        Ok(processed) => {
            proof {
                if processed.other_pool(pool_uuid) {
                    let g = choose|g: int| 0 <= g < processed.stratis_devices@.len() && (#[trigger] processed.stratis_devices@[g]).0 != pool_uuid;
                    let q = processed.stratis_devices@[g].0;
                    assert(pool_mentioned(s, q));
                    let i = choose|i: int| 0 <= i < s.len() && names_pool(#[trigger] s[i], q);
                    assert(names_other_pool(s, pool_uuid));
                }
                if names_other_pool(s, pool_uuid) {
                    let i = choose|i: int| 0 <= i < s.len() && (#[trigger] s[i]).1 is Some && s[i].1->0.pool_uuid != pool_uuid;
                    let q = s[i].1->0.pool_uuid;
                    assert(names_pool(s[i], q));
                    assert(pool_mentioned(s, q));
                    let g = choose|g: int| 0 <= g < processed.stratis_devices@.len() && (#[trigger] processed.stratis_devices@[g]).0 == q;
                    assert(processed.other_pool(pool_uuid));
                }
                if processed.other_tier(pool_uuid, current_uuids@) {
                    let (g, k) = choose|g: int, k: int|
                        0 <= g < processed.stratis_devices@.len() && processed.stratis_devices@[g].0 == pool_uuid && 0 <= k
                            < processed.stratis_devices@[g].1@.len() && !current_uuids@.contains(
                            #[trigger] processed.stratis_devices@[g].1@[k].0,
                        );
                    lemma_member_source(s, pool_uuid, k);
                    assert(names_unused_member(s, pool_uuid, current_uuids@));
                }
                if names_unused_member(s, pool_uuid, current_uuids@) {
                    let i = choose|i: int| 0 <= i < s.len() && names_pool(#[trigger] s[i], pool_uuid) && !current_uuids@.contains(s[i].1->0.device_uuid);
                    assert(pool_mentioned(s, pool_uuid));
                    let g = choose|g: int| 0 <= g < processed.stratis_devices@.len() && (#[trigger] processed.stratis_devices@[g]).0 == pool_uuid;
                    let k = lemma_source_member(s, pool_uuid, i);
                    assert(processed.stratis_devices@[g].1@[k].0 == s[i].1->0.device_uuid);
                    assert(processed.other_tier(pool_uuid, current_uuids@));
                }
            }
            processed.into_filtered(pool_uuid, current_uuids)
        },
    }
}

/// Each member of a pool comes from a device of the request that names it.
proof fn lemma_member_source(s: Seq<(DeviceInfo, Option<StratisIdentifiers>)>, p: PoolUuid, k: int)
    requires
        0 <= k < members_of(s, p).len(),
    ensures
        exists|i: int| 0 <= i < s.len() && names_pool(#[trigger] s[i], p) && s[i].1->0.device_uuid == members_of(s, p)[k].0,
    decreases s.len(),
{
    let rest = s.drop_last();
    let m = members_of(rest, p);
    if k < m.len() {
        if names_pool(s.last(), p) {
            assert(members_of(s, p) == m + seq![(s.last().1->0.device_uuid, s.last().0)]);
        } else {
            assert(members_of(s, p) == m);
        }
        assert(members_of(s, p)[k] == m[k]);
        lemma_member_source(rest, p, k);
        let i = choose|i: int| 0 <= i < rest.len() && names_pool(#[trigger] rest[i], p) && rest[i].1->0.device_uuid == m[k].0;
        assert(s[i] == rest[i]);
    } else {
        if !names_pool(s.last(), p) {
            assert(members_of(s, p) == m);
        }
        assert(names_pool(s[s.len() - 1], p));
    }
}

/// Each device of the request that names a pool is among its members.
proof fn lemma_source_member(s: Seq<(DeviceInfo, Option<StratisIdentifiers>)>, p: PoolUuid, i: int) -> (k: int)
    requires
        0 <= i < s.len(),
        names_pool(s[i], p),
    ensures
        0 <= k < members_of(s, p).len(),
        members_of(s, p)[k].0 == s[i].1->0.device_uuid,
    decreases s.len(),
{
    let rest = s.drop_last();
    let m = members_of(rest, p);
    if names_pool(s.last(), p) {
        assert(members_of(s, p) == m + seq![(s.last().1->0.device_uuid, s.last().0)]);
    } else {
        assert(members_of(s, p) == m);
    }
    if i < s.len() - 1 {
        assert(rest[i] == s[i]);
        let k = lemma_source_member(rest, p, i);
        assert(members_of(s, p)[k] == m[k]);
        k
    } else {
        m.len() as int
    }
}

/// What initializing the devices of a pool calls for next.
#[derive(Debug, Clone, Copy, PartialEq, Eq, Structural)]
pub enum InitStep {
    /// Initialize the device at this index.
    Initialize(usize),
    /// Wipe the devices initialized so far.
    Wipe,
    /// Every device was initialized.
    Succeeded,
    /// A device failed to initialize; those before it were wiped.
    Failed,
}

/// How the step that was called for went.
#[derive(Debug, Clone, Copy, PartialEq, Eq, Structural)]
pub enum InitEvent {
    Done,
    Error,
}

/// The progress of initializing `n` devices in order: how many were
/// initialized, whether one failed, and whether the wipe that follows a
/// failure was made.
#[derive(Debug, Clone, Copy, PartialEq, Eq, Structural)]
pub struct InitLoop {
    pub n: usize,
    pub initialized: usize,
    pub failed: bool,
    pub wiped: bool,
}

/// The state after `event` answered the step that `s` called for.
pub open spec fn init_after(s: InitLoop, event: InitEvent) -> InitLoop {
    match s.step_of() {
        InitStep::Initialize(_) => match event {
            InitEvent::Done => InitLoop { initialized: (s.initialized + 1) as usize, ..s },
            InitEvent::Error => InitLoop { failed: true, ..s },
        },
        InitStep::Wipe => InitLoop { wiped: true, ..s },
        _ => s,
    }
}

impl InitLoop {
    /// No more devices were initialized than there are, a failure stops
    /// before the end, and only a failure is wiped after.
    pub open spec fn wf(&self) -> bool {
        &&& self.initialized <= self.n
        &&& self.failed ==> self.initialized < self.n
        &&& self.wiped ==> self.failed
    }

    /// The step the state calls for.
    pub open spec fn step_of(&self) -> InitStep {
        if self.failed {
            if self.wiped {
                InitStep::Failed
            } else {
                InitStep::Wipe
            }
        } else if self.initialized == self.n {
            InitStep::Succeeded
        } else {
            InitStep::Initialize(self.initialized)
        }
    }

    /// How many more steps there can be at most.
    pub open spec fn remaining(&self) -> int {
        if self.failed {
            if self.wiped {
                0
            } else {
                1
            }
        } else {
            self.n - self.initialized + 1
        }
    }

    /// Initializing `n` devices, before anything was done.
    pub fn new(n: usize) -> (r: InitLoop)
        ensures
            r.wf(),
            r == (InitLoop { n, initialized: 0, failed: false, wiped: false }),
    {
        InitLoop { n, initialized: 0, failed: false, wiped: false }
    }

    /// The step the state calls for.
    pub fn next_step(&self) -> (r: InitStep)
        requires
            self.wf(),
        ensures
            r == self.step_of(),
    {
        if self.failed {
            if self.wiped {
                InitStep::Failed
            } else {
                InitStep::Wipe
            }
        } else if self.initialized == self.n {
            InitStep::Succeeded
        } else {
            InitStep::Initialize(self.initialized)
        }
    }

    /// Take in how the step the state called for went. Devices are
    /// initialized in order until one fails; a failure calls for wiping
    /// those initialized before it, whatever the wipe comes to, and then
    /// ends in failure. The end of the steps is final.
    pub fn advance(&mut self, event: InitEvent)
        requires
            old(self).wf(),
        ensures
            final(self).wf(),
            *final(self) == init_after(*old(self), event),
            final(self).n == old(self).n,
            old(self).step_of() is Initialize || old(self).step_of() is Wipe ==> 0 <= final(self).remaining()
                < old(self).remaining(),
            old(self).step_of() is Succeeded || old(self).step_of() is Failed ==> *final(self) == *old(self),
    {
        match self.next_step() {
            InitStep::Initialize(_) => match event {
                InitEvent::Done => {
                    self.initialized = self.initialized + 1;
                },
                InitEvent::Error => {
                    self.failed = true;
                },
            },
            InitStep::Wipe => {
                self.wiped = true;
            },
            _ => {},
        }
    }
}

/// The device paths for which an initialization is under way.
pub struct InProgress {
    paths: Vec<String>,
}

impl InProgress {
    /// The paths being initialized.
    pub closed spec fn paths(&self) -> Set<Seq<char>> {
        str_set(self.paths@)
    }

    /// No path is being initialized.
    pub fn new() -> (r: InProgress)
        ensures
            r.paths() == Set::<Seq<char>>::empty(),
    {
        let r = InProgress { paths: Vec::new() };
        proof {
            assert(r.paths() =~= Set::<Seq<char>>::empty());
        }
        r
    }

    /// Claim the paths for an initialization; refused, with nothing
    /// claimed, when one of them is being initialized already.
    pub fn claim(&mut self, paths: &Vec<String>) -> (r: Result<(), StratisError>)
        ensures
            !old(self).paths().disjoint(str_set(paths@)) ==> r == Err::<(), StratisError>(
                StratisError::Msg(ErrorReason::InitializationInProgress),
            ) && final(self).paths() == old(self).paths(),
            old(self).paths().disjoint(str_set(paths@)) ==> r is Ok && final(self).paths() == old(self).paths().union(
                str_set(paths@),
            ),
    {
        let mut i: usize = 0;
        while i < paths.len()
            invariant
                i <= paths@.len(),
                forall|j: int| 0 <= j < i ==> !self.paths().contains(#[trigger] paths@[j]@),
            decreases paths@.len() - i,
        {
            if crate::shared::contains_str(&self.paths, &paths[i]) {
                proof {
                    assert(self.paths().contains(paths@[i as int]@));
                    assert(str_set(paths@).contains(paths@[i as int]@));
                }
                return Err(StratisError::Msg(ErrorReason::InitializationInProgress));
            }
            i = i + 1;
        }
        let ghost before = self.paths@;
        let mut i: usize = 0;
        while i < paths.len()
            invariant
                i <= paths@.len(),
                str_set(self.paths@) == str_set(before).union(str_set(paths@.take(i as int))),
            decreases paths@.len() - i,
        {
            let ghost prev = self.paths@;
            self.paths.push(paths[i].clone());
            proof {
                let t0 = paths@.take(i as int);
                let t1 = paths@.take(i as int + 1);
                assert(t1 =~= t0.push(paths@[i as int]));
                assert(self.paths@ == prev.push(paths@[i as int]));
                assert forall|x: Seq<char>| #![auto] str_set(self.paths@).contains(x) <==> str_set(before).union(str_set(t1)).contains(x) by {
                    if str_set(self.paths@).contains(x) {
                        let k = choose|k: int| 0 <= k < self.paths@.len() && self.paths@[k]@ == x;
                        if k == prev.len() {
                            assert(t1[i as int]@ == x);
                        } else {
                            assert(prev[k]@ == x);
                            assert(str_set(prev).contains(x));
                            if !str_set(before).contains(x) {
                                assert(str_set(t0).contains(x));
                                let m = choose|m: int| 0 <= m < t0.len() && t0[m]@ == x;
                                assert(t1[m]@ == x);
                            }
                        }
                    }
                    if str_set(before).union(str_set(t1)).contains(x) {
                        if str_set(t1).contains(x) {
                            let m = choose|m: int| 0 <= m < t1.len() && t1[m]@ == x;
                            if m == i {
                                assert(self.paths@[prev.len() as int]@ == x);
                            } else {
                                assert(t0[m]@ == x);
                                assert(str_set(t0).contains(x));
                                assert(str_set(prev).contains(x));
                                let k = choose|k: int| 0 <= k < prev.len() && prev[k]@ == x;
                                assert(self.paths@[k]@ == x);
                            }
                        } else {
                            assert(str_set(prev).contains(x));
                            let k = choose|k: int| 0 <= k < prev.len() && prev[k]@ == x;
                            assert(self.paths@[k]@ == x);
                        }
                    }
                }
                assert(str_set(self.paths@) =~= str_set(before).union(str_set(t1)));
            }
            i = i + 1;
        }
        proof {
            assert(paths@.take(paths@.len() as int) =~= paths@);
        }
        Ok(())
    }

    /// Release the paths of an initialization.
    pub fn release(&mut self, paths: &Vec<String>)
        ensures
            final(self).paths() == old(self).paths().difference(str_set(paths@)),
    {
        let kept = str_difference(&self.paths, paths);
        self.paths = kept;
    }
}

/// Claiming paths that no initialization holds and then releasing them
/// leaves the paths in progress as they were.
pub proof fn law_claim_then_release(held: Set<Seq<char>>, paths: Set<Seq<char>>)
    requires
        held.disjoint(paths),
    ensures
        held.union(paths).difference(paths) == held,
{
    assert(held.union(paths).difference(paths) =~= held);
}

/// The hardware identifier recorded for a new block device: none for an
/// encrypted device, which is a logical device; otherwise the ID_WWN
/// property when it was present and decodable.
pub fn hardware_id(encrypted: bool, id_wwn: &Option<Result<String, StratisError>>) -> (r: Option<String>)
    ensures
        r == match (encrypted, id_wwn) {
            (false, Some(Ok(s))) => Some(*s),
            _ => None::<String>,
        },
{
    if encrypted {
        return None;
    }
    match id_wwn {
        Some(Ok(s)) => Some(s.clone()),
        _ => None,
    }
}

/// The last path in the list that has device number `d`.
pub open spec fn last_path_of(v: Seq<(u64, String)>, d: u64) -> Seq<char>
    decreases v.len(),
{
    if v.len() == 0 {
        Seq::empty()
    } else if v.last().0 == d {
        v.last().1@
    } else {
        last_path_of(v.drop_last(), d)
    }
}

/// Some entry at or after `from` has device number `d`.
pub open spec fn has_devno(v: Seq<(u64, String)>, d: u64, from: int) -> bool {
    exists|i: int| from <= i < v.len() && #[trigger] v[i].0 == d
}

/// One entry per device number among resolved paths, with the last path
/// that resolved to it.
pub fn devices_by_number(resolved: &Vec<(u64, String)>) -> (r: Vec<(u64, String)>)
    ensures
        forall|d: u64| #[trigger] has_devno(r@, d, 0) <==> has_devno(resolved@, d, 0),
        forall|i: int, j: int| 0 <= i < r@.len() && 0 <= j < r@.len() && i != j ==> r@[i].0 != r@[j].0,
        forall|i: int| 0 <= i < r@.len() ==> (#[trigger] r@[i]).1@ == last_path_of(resolved@, r@[i].0),
{
    let mut r: Vec<(u64, String)> = Vec::new();
    let mut k: usize = resolved.len();
    while k > 0
        invariant
            k <= resolved@.len(),
            forall|d: u64| #[trigger] has_devno(r@, d, 0) <==> has_devno(resolved@, d, k as int),
            forall|i: int, j: int| 0 <= i < r@.len() && 0 <= j < r@.len() && i != j ==> r@[i].0 != r@[j].0,
            forall|i: int| 0 <= i < r@.len() ==> (#[trigger] r@[i]).1@ == last_path_of(resolved@, r@[i].0),
        decreases k,
    {
        k = k - 1;
        let d = resolved[k].0;
        let mut seen = false;
        let mut i: usize = 0;
        while i < r.len()
            invariant
                i <= r@.len(),
                seen == exists|x: int| 0 <= x < i && #[trigger] r@[x].0 == d,
            decreases r@.len() - i,
        {
            if r[i].0 == d {
                seen = true;
            }
            i = i + 1;
        }
        if !seen {
            proof {
                assert(!has_devno(r@, d, 0));
                assert forall|j: int| k < j < resolved@.len() implies #[trigger] resolved@[j].0 != resolved@[k as int].0 by {
                    if resolved@[j].0 == d {
                        assert(has_devno(resolved@, d, k + 1));
                    }
                }
                lemma_last_path(resolved@, k as int);
            }
            let ghost before = r@;
            r.push((d, resolved[k].1.clone()));
            proof {
                assert forall|dd: u64| #[trigger] has_devno(r@, dd, 0) <==> has_devno(resolved@, dd, k as int) by {
                    if has_devno(r@, dd, 0) {
                        let i = choose|i: int| 0 <= i < r@.len() && #[trigger] r@[i].0 == dd;
                        if i < before.len() {
                            assert(before[i].0 == dd);
                            assert(has_devno(before, dd, 0));
                            let j = choose|j: int| k + 1 <= j < resolved@.len() && #[trigger] resolved@[j].0 == dd;
                        } else {
                            assert(resolved@[k as int].0 == dd);
                        }
                    }
                    if has_devno(resolved@, dd, k as int) {
                        let j = choose|j: int| k <= j < resolved@.len() && #[trigger] resolved@[j].0 == dd;
                        if j == k {
                            assert(r@[before.len() as int].0 == dd);
                        } else {
                            assert(has_devno(resolved@, dd, k + 1));
                            assert(has_devno(before, dd, 0));
                            let i = choose|i: int| 0 <= i < before.len() && #[trigger] before[i].0 == dd;
                            assert(r@[i].0 == dd);
                        }
                    }
                }
                assert forall|a: int, b: int| 0 <= a < r@.len() && 0 <= b < r@.len() && a != b implies r@[a].0 != r@[b].0 by {
                    if a == before.len() {
                        assert(r@[b] == before[b]);
                        if before[b].0 == d {
                            assert(has_devno(before, d, 0));
                        }
                    } else if b == before.len() {
                        assert(r@[a] == before[a]);
                        if before[a].0 == d {
                            assert(has_devno(before, d, 0));
                        }
                    }
                }
                assert forall|a: int| 0 <= a < r@.len() implies (#[trigger] r@[a]).1@ == last_path_of(resolved@, r@[a].0) by {
                    if a < before.len() {
                        assert(r@[a] == before[a]);
                    }
                }
            }
        } else {
            proof {
                let x = choose|x: int| 0 <= x < r@.len() && #[trigger] r@[x].0 == d;
                assert(has_devno(r@, d, 0));
                assert forall|dd: u64| #[trigger] has_devno(r@, dd, 0) <==> has_devno(resolved@, dd, k as int) by {
                    if has_devno(resolved@, dd, k as int) {
                        let j = choose|j: int| k <= j < resolved@.len() && #[trigger] resolved@[j].0 == dd;
                        if j > k {
                            assert(has_devno(resolved@, dd, k + 1));
                        }
                    }
                    if has_devno(r@, dd, 0) {
                        assert(has_devno(resolved@, dd, k + 1));
                        let j = choose|j: int| k + 1 <= j < resolved@.len() && #[trigger] resolved@[j].0 == dd;
                    }
                }
            }
        }
    }
    r
}

/// The path kept for the device number at `k` is that entry's own when no
/// later entry has the same number.
proof fn lemma_last_path(v: Seq<(u64, String)>, k: int)
    requires
        0 <= k < v.len(),
        forall|j: int| k < j < v.len() ==> #[trigger] v[j].0 != v[k].0,
    ensures
        last_path_of(v, v[k].0) == v[k].1@,
    decreases v.len(),
{
    if k < v.len() - 1 {
        assert(v.last().0 != v[k].0);
        assert(v.drop_last()[k] == v[k]);
        assert forall|j: int| k < j < v.drop_last().len() implies #[trigger] v.drop_last()[j].0 != v.drop_last()[k].0 by {
            assert(v.drop_last()[j] == v[j]);
        }
        lemma_last_path(v.drop_last(), k);
    }
}

/// The number of devices in a list of groups.
pub open spec fn group_sizes(groups: Seq<(PoolUuid, Vec<(DevUuid, DeviceInfo)>)>) -> int
    decreases groups.len(),
{
    if groups.len() == 0 {
        0
    } else {
        group_sizes(groups.drop_last()) + groups.last().1@.len()
    }
}

/// A pool none of whose devices are named has no members.
proof fn lemma_members_empty(s: Seq<(DeviceInfo, Option<StratisIdentifiers>)>, p: PoolUuid)
    requires
        !pool_mentioned(s, p),
    ensures
        members_of(s, p) == Seq::<(DevUuid, DeviceInfo)>::empty(),
    decreases s.len(),
{
    if s.len() > 0 {
        assert forall|i: int| 0 <= i < s.drop_last().len() implies !names_pool(#[trigger] s.drop_last()[i], p) by {
            assert(s.drop_last()[i] == s[i]);
        }
        lemma_members_empty(s.drop_last(), p);
        assert(!names_pool(s[s.len() - 1], p));
    }
}

/// The index of the group of `pool`, if there is one.
fn find_group(groups: &Vec<(PoolUuid, Vec<(DevUuid, DeviceInfo)>)>, pool: PoolUuid) -> (r: Option<usize>)
    ensures
        match r {
            Some(g) => g < groups@.len() && groups@[g as int].0 == pool,
            None => forall|g: int| 0 <= g < groups@.len() ==> (#[trigger] groups@[g]).0 != pool,
        },
{
    let mut g: usize = 0;
    while g < groups.len()
        invariant
            g <= groups@.len(),
            forall|h: int| 0 <= h < g ==> (#[trigger] groups@[h]).0 != pool,
        decreases groups@.len() - g,
    {
        if groups[g].0.0 == pool.0 {
            return Some(g);
        }
        g = g + 1;
    }
    None
}

/// Whether `u` is in the list.
pub fn contains_dev_uuid(v: &Vec<DevUuid>, u: DevUuid) -> (r: bool)
    ensures
        r == v@.contains(u),
{
    let mut i: usize = 0;
    while i < v.len()
        invariant
            i <= v@.len(),
            forall|j: int| 0 <= j < i ==> v@[j] != u,
        decreases v@.len() - i,
    {
        if v[i].0 == u.0 {
            return true;
        }
        i = i + 1;
    }
    false
}

} // verus!
