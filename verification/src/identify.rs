//! Identifying the block devices that belong to Stratis from what udev and
//! their metadata say of them.

use vstd::prelude::*;
use crate::devices::{devices_by_number, has_devno, last_path_of, UdevOwnership};
use crate::types::{PoolUuid, StratisIdentifiers};

verus! {

/// What is read of a block device to identify it: its device node and
/// device number from udev, and the identifiers in its Stratis metadata (or
/// why they could not be read).
#[derive(Debug)]
pub struct DeviceProbe {
    pub devnode: Option<String>,
    pub devno: Option<u64>,
    pub identifiers: Result<Option<StratisIdentifiers>, String>,
}

/// The identity of a Stratis device, its device number and device node,
/// when everything needed was read and the metadata holds identifiers.
pub open spec fn probe_result(p: DeviceProbe) -> Option<(StratisIdentifiers, u64, Seq<char>)> {
    match (p.devnode, p.devno, p.identifiers) {
        (Some(node), Some(devno), Ok(Some(ids))) => Some((ids, devno, node@)),
        _ => None,
    }
}

/// The view of an identification result.
pub open spec fn info_view(r: Option<(StratisIdentifiers, u64, String)>) -> Option<(StratisIdentifiers, u64, Seq<char>)> {
    match r {
        Some((ids, devno, node)) => Some((ids, devno, node@)),
        None => None,
    }
}

fn probe_info(probe: &DeviceProbe) -> (r: Option<(StratisIdentifiers, u64, String)>)
    ensures
        info_view(r) == probe_result(*probe),
{
    match (&probe.devnode, probe.devno, &probe.identifiers) {
        (Some(node), Some(devno), Ok(Some(ids))) => Some((*ids, devno, node.clone())),
        _ => None,
    }
}

/// Process a device that udev reports as a Stratis device: it is
/// disregarded unless its node, number and identifiers were all read.
pub fn process_stratis_device(probe: &DeviceProbe) -> (r: Option<(StratisIdentifiers, u64, String)>)
    ensures
        info_view(r) == probe_result(*probe),
{
    probe_info(probe)
}

/// Process a device that udev reports as unowned: it is a Stratis device
/// only when its node, number and identifiers were all read.
pub fn process_unowned_device(probe: &DeviceProbe) -> (r: Option<(StratisIdentifiers, u64, String)>)
    ensures
        info_view(r) == probe_result(*probe),
{
    probe_info(probe)
}

/// Identify a block device from a udev event: only an initialized entry
/// whose ownership udev could decide, as Stratis or as unowned, is
/// examined. `ownership` is `None` when udev could not decide.
pub fn identify_block_device(initialized: bool, ownership: Option<UdevOwnership>, probe: &DeviceProbe) -> (r: Option<
    (StratisIdentifiers, u64, String),
>)
    ensures
        info_view(r) == if initialized && (ownership == Some(UdevOwnership::Stratis) || ownership == Some(
            UdevOwnership::Unowned,
        )) {
            probe_result(*probe)
        } else {
            None
        },
{
    if !initialized {
        return None;
    }
    match ownership {
        Some(UdevOwnership::Stratis) => process_stratis_device(probe),
        Some(UdevOwnership::Unowned) => process_unowned_device(probe),
        _ => None,
    }
}

/// Identify a device that a search for Stratis devices found: only an
/// initialized entry that udev decides is a Stratis device is examined.
pub fn identify_stratis_device(initialized: bool, ownership: Option<UdevOwnership>, probe: &DeviceProbe) -> (r: Option<
    (StratisIdentifiers, u64, String),
>)
    ensures
        info_view(r) == if initialized && ownership == Some(UdevOwnership::Stratis) {
            probe_result(*probe)
        } else {
            None
        },
{
    if !initialized {
        return None;
    }
    match ownership {
        Some(UdevOwnership::Stratis) => process_stratis_device(probe),
        _ => None,
    }
}

/// The device numbers and nodes of the identified devices of pool `p`, in
/// order.
pub open spec fn pool_pairs(infos: Seq<(StratisIdentifiers, u64, String)>, p: PoolUuid) -> Seq<(u64, String)> {
    infos.filter_map(|x: (StratisIdentifiers, u64, String)| if x.0.pool_uuid == p { Some((x.1, x.2)) } else { None })
}

/// Some identified device belongs to pool `p`.
pub open spec fn pool_found(infos: Seq<(StratisIdentifiers, u64, String)>, p: PoolUuid) -> bool {
    exists|i: int| 0 <= i < infos.len() && (#[trigger] infos[i]).0.pool_uuid == p
}

/// Group identified devices by pool: one group per pool, holding one entry
/// per device number with the last device node found for it.
pub fn group_by_pool(infos: &Vec<(StratisIdentifiers, u64, String)>) -> (r: Vec<(PoolUuid, Vec<(u64, String)>)>)
    ensures
        forall|g: int, h: int| 0 <= g < r@.len() && 0 <= h < r@.len() && g != h ==> r@[g].0 != r@[h].0,
        forall|p: PoolUuid| pool_found(infos@, p) <==> exists|g: int| 0 <= g < r@.len() && (#[trigger] r@[g]).0 == p,
        forall|g: int| 0 <= g < r@.len() ==> {
            let (p, devs) = #[trigger] r@[g];
            &&& forall|d: u64| #[trigger] has_devno(devs@, d, 0) <==> has_devno(pool_pairs(infos@, p), d, 0)
            &&& forall|i: int, j: int| 0 <= i < devs@.len() && 0 <= j < devs@.len() && i != j ==> devs@[i].0 != devs@[j].0
            &&& forall|i: int| 0 <= i < devs@.len() ==> (#[trigger] devs@[i]).1@ == last_path_of(pool_pairs(infos@, p), devs@[i].0)
        },
{
    let mut r: Vec<(PoolUuid, Vec<(u64, String)>)> = Vec::new();
    let mut k: usize = 0;
    while k < infos.len()
        invariant
            k <= infos@.len(),
            forall|g: int, h: int| 0 <= g < r@.len() && 0 <= h < r@.len() && g != h ==> r@[g].0 != r@[h].0,
            forall|p: PoolUuid| pool_found(infos@.take(k as int), p) <==> exists|g: int|
                0 <= g < r@.len() && (#[trigger] r@[g]).0 == p,
            forall|g: int| 0 <= g < r@.len() ==> {
                let (p, devs) = #[trigger] r@[g];
                &&& forall|d: u64| #[trigger] has_devno(devs@, d, 0) <==> has_devno(pool_pairs(infos@, p), d, 0)
                &&& forall|i: int, j: int| 0 <= i < devs@.len() && 0 <= j < devs@.len() && i != j ==> devs@[i].0 != devs@[j].0
                &&& forall|i: int| 0 <= i < devs@.len() ==> (#[trigger] devs@[i]).1@ == last_path_of(pool_pairs(infos@, p), devs@[i].0)
            },
        decreases infos@.len() - k,
    {
        let p = infos[k].0.pool_uuid;
        let mut known = false;
        let mut g: usize = 0;
        while g < r.len()
            invariant
                g <= r@.len(),
                known == exists|x: int| 0 <= x < g && (#[trigger] r@[x]).0 == p,
            decreases r@.len() - g,
        {
            if r[g].0.0 == p.0 {
                known = true;
            }
            g = g + 1;
        }
        let ghost before = r@;
        if !known {
            let pairs = pairs_of_pool(infos, p);
            let devs = devices_by_number(&pairs);
            r.push((p, devs));
        }
        proof {
            let t0 = infos@.take(k as int);
            let t1 = infos@.take(k as int + 1);
            assert forall|q: PoolUuid| pool_found(t1, q) <==> exists|g: int| 0 <= g < r@.len() && (#[trigger] r@[g]).0 == q by {
                if pool_found(t1, q) {
                    let i = choose|i: int| 0 <= i < t1.len() && (#[trigger] t1[i]).0.pool_uuid == q;
                    if i < k {
                        assert(t0[i] == t1[i]);
                        assert(pool_found(t0, q));
                        let g = choose|g: int| 0 <= g < before.len() && (#[trigger] before[g]).0 == q;
                        assert(r@[g] == before[g]);
                    } else if !known {
                        assert(r@[before.len() as int].0 == q);
                    } else {
                        let x = choose|x: int| 0 <= x < before.len() && (#[trigger] before[x]).0 == p;
                        assert(r@[x] == before[x]);
                    }
                }
                if exists|g: int| 0 <= g < r@.len() && (#[trigger] r@[g]).0 == q {
                    let g = choose|g: int| 0 <= g < r@.len() && (#[trigger] r@[g]).0 == q;
                    if g < before.len() {
                        assert(r@[g] == before[g]);
                        assert(pool_found(t0, q));
                        let i = choose|i: int| 0 <= i < t0.len() && (#[trigger] t0[i]).0.pool_uuid == q;
                        assert(t1[i] == t0[i]);
                    } else {
                        assert(t1[k as int].0.pool_uuid == q);
                    }
                }
            }
            assert forall|a: int, b: int| 0 <= a < r@.len() && 0 <= b < r@.len() && a != b implies r@[a].0 != r@[b].0 by {
                if !known {
                    if a == before.len() {
                        assert(r@[b] == before[b]);
                    } else if b == before.len() {
                        assert(r@[a] == before[a]);
                    } else {
                        assert(r@[a] == before[a]);
                        assert(r@[b] == before[b]);
                    }
                }
            }
            assert forall|g: int| 0 <= g < r@.len() implies {
                let (p, devs) = #[trigger] r@[g];
                &&& forall|d: u64| #[trigger] has_devno(devs@, d, 0) <==> has_devno(pool_pairs(infos@, p), d, 0)
                &&& forall|i: int, j: int| 0 <= i < devs@.len() && 0 <= j < devs@.len() && i != j ==> devs@[i].0 != devs@[j].0
                &&& forall|i: int| 0 <= i < devs@.len() ==> (#[trigger] devs@[i]).1@ == last_path_of(pool_pairs(infos@, p), devs@[i].0)
            } by {
                if g < before.len() {
                    assert(r@[g] == before[g]);
                }
            }
        }
        k = k + 1;
    }
    proof {
        assert(infos@.take(infos@.len() as int) =~= infos@);
    }
    r
}

/// The device numbers and nodes of the identified devices of pool `p`.
fn pairs_of_pool(infos: &Vec<(StratisIdentifiers, u64, String)>, p: PoolUuid) -> (r: Vec<(u64, String)>)
    ensures
        r@ == pool_pairs(infos@, p),
{
    let mut r: Vec<(u64, String)> = Vec::new();
    let mut i: usize = 0;
    proof {
        assert(infos@.take(0) =~= Seq::<(StratisIdentifiers, u64, String)>::empty());
    }
    while i < infos.len()
        invariant
            i <= infos@.len(),
            r@ == pool_pairs(infos@.take(i as int), p),
        decreases infos@.len() - i,
    {
        proof {
            assert(infos@.take(i as int + 1).drop_last() =~= infos@.take(i as int));
        }
        if infos[i].0.pool_uuid.0 == p.0 {
            r.push((infos[i].1, infos[i].2.clone()));
            proof {
                assert(r@ =~= pool_pairs(infos@.take(i as int + 1), p));
            }
        }
        i = i + 1;
    }
    proof {
        assert(infos@.take(infos@.len() as int) =~= infos@);
    }
    r
}

} // verus!
