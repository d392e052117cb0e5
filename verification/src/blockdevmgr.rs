//! How the block device manager spreads requests for space over its
//! devices: the devices are taken in order, as if their free space were
//! laid end to end, and the requests are laid out in order over it.

use vstd::prelude::*;
use crate::errors::StratisError;
use crate::units::Sectors;

verus! {

/// The total of a list of sector counts.
pub open spec fn total_sectors(s: Seq<Sectors>) -> int
    decreases s.len(),
{
    if s.len() == 0 {
        0
    } else {
        total_sectors(s.drop_last()) + s.last().0
    }
}

/// Where the `i`th item starts when the items are laid end to end.
pub open spec fn offset(s: Seq<Sectors>, i: int) -> int {
    total_sectors(s.take(i))
}

/// The length of the overlap of the ranges [a0, a1) and [b0, b1).
pub open spec fn overlap(a0: int, a1: int, b0: int, b1: int) -> int {
    let lo = if a0 < b0 { b0 } else { a0 };
    let hi = if a1 < b1 { a1 } else { b1 };
    if lo < hi {
        hi - lo
    } else {
        0
    }
}

/// The sectors that request `k` of `sizes` takes from device `i`, whose
/// free sectors are given by `free`.
pub open spec fn share(free: Seq<Sectors>, sizes: Seq<Sectors>, k: int, i: int) -> int {
    overlap(offset(sizes, k), offset(sizes, k + 1), offset(free, i), offset(free, i + 1))
}

/// A total of a prefix, extended by one item.
proof fn lemma_offset_step(s: Seq<Sectors>, i: int)
    requires
        0 <= i < s.len(),
    ensures
        offset(s, i + 1) == offset(s, i) + s[i].0,
{
    assert(s.take(i + 1).drop_last() =~= s.take(i));
}

/// Offsets grow with the index.
proof fn lemma_offset_up(s: Seq<Sectors>, i: int, j: int)
    requires
        0 <= i <= j <= s.len(),
    ensures
        offset(s, i) <= offset(s, j),
    decreases j - i,
{
    if i < j {
        lemma_offset_up(s, i, j - 1);
        lemma_offset_step(s, j - 1);
    }
}

/// Offsets grow with the index and stay within the total.
proof fn lemma_offset_mono(s: Seq<Sectors>, i: int, j: int)
    requires
        0 <= i <= j <= s.len(),
    ensures
        0 <= offset(s, i) <= offset(s, j) <= total_sectors(s),
{
    lemma_total_nonneg(s.take(i));
    lemma_offset_up(s, i, j);
    lemma_offset_up(s, j, s.len() as int);
    assert(s.take(s.len() as int) =~= s);
}

proof fn lemma_total_nonneg(s: Seq<Sectors>)
    ensures
        total_sectors(s) >= 0,
    decreases s.len(),
{
    if s.len() > 0 {
        lemma_total_nonneg(s.drop_last());
    }
}

/// Overlaps with two adjacent ranges add up to the overlap with both.
proof fn lemma_overlap_split(a0: int, a1: int, x: int, y: int, z: int)
    requires
        a0 <= a1,
        x <= y <= z,
    ensures
        overlap(a0, a1, x, y) + overlap(a0, a1, y, z) == overlap(a0, a1, x, z),
{
}

/// What request `k` takes from the first `n` devices together.
pub open spec fn request_taken(free: Seq<Sectors>, sizes: Seq<Sectors>, k: int, n: int) -> int
    decreases n,
{
    if n <= 0 {
        0
    } else {
        request_taken(free, sizes, k, n - 1) + share(free, sizes, k, n - 1)
    }
}

/// What the first `m` requests take from device `i` together.
pub open spec fn device_given(free: Seq<Sectors>, sizes: Seq<Sectors>, m: int, i: int) -> int
    decreases m,
{
    if m <= 0 {
        0
    } else {
        device_given(free, sizes, m - 1, i) + share(free, sizes, m - 1, i)
    }
}

proof fn lemma_request_taken(free: Seq<Sectors>, sizes: Seq<Sectors>, k: int, n: int)
    requires
        0 <= k < sizes.len(),
        0 <= n <= free.len(),
    ensures
        request_taken(free, sizes, k, n) == overlap(offset(sizes, k), offset(sizes, k + 1), 0, offset(free, n)),
    decreases n,
{
    lemma_offset_mono(sizes, k, k + 1);
    if n == 0 {
        assert(free.take(0) =~= Seq::<Sectors>::empty());
    } else {
        lemma_request_taken(free, sizes, k, n - 1);
        lemma_offset_mono(free, 0, n - 1);
        lemma_offset_mono(free, n - 1, n);
        assert(free.take(0) =~= Seq::<Sectors>::empty());
        lemma_overlap_split(offset(sizes, k), offset(sizes, k + 1), 0, offset(free, n - 1), offset(free, n));
    }
}

proof fn lemma_device_given(free: Seq<Sectors>, sizes: Seq<Sectors>, m: int, i: int)
    requires
        0 <= m <= sizes.len(),
        0 <= i < free.len(),
    ensures
        device_given(free, sizes, m, i) == overlap(offset(free, i), offset(free, i + 1), 0, offset(sizes, m)),
    decreases m,
{
    lemma_offset_mono(free, i, i + 1);
    if m == 0 {
        assert(sizes.take(0) =~= Seq::<Sectors>::empty());
    } else {
        lemma_device_given(free, sizes, m - 1, i);
        lemma_offset_mono(sizes, 0, m - 1);
        lemma_offset_mono(sizes, m - 1, m);
        assert(sizes.take(0) =~= Seq::<Sectors>::empty());
        lemma_overlap_split(offset(free, i), offset(free, i + 1), 0, offset(sizes, m - 1), offset(sizes, m));
    }
}

/// When the devices have at least as much free space as the requests ask
/// for, every request gets exactly the sectors it asks for, spread over
/// the devices.
pub proof fn law_requests_filled(free: Seq<Sectors>, sizes: Seq<Sectors>, k: int)
    requires
        0 <= k < sizes.len(),
        total_sectors(sizes) <= total_sectors(free),
    ensures
        request_taken(free, sizes, k, free.len() as int) == sizes[k].0,
{
    lemma_request_taken(free, sizes, k, free.len() as int);
    lemma_offset_step(sizes, k);
    lemma_offset_mono(sizes, k + 1, sizes.len() as int);
    lemma_offset_mono(sizes, 0, k);
    assert(free.take(free.len() as int) =~= free);
}

/// No device gives more sectors, over all the requests, than it has free.
pub proof fn law_devices_not_overdrawn(free: Seq<Sectors>, sizes: Seq<Sectors>, i: int)
    requires
        0 <= i < free.len(),
    ensures
        0 <= device_given(free, sizes, sizes.len() as int, i) <= free[i].0,
{
    lemma_device_given(free, sizes, sizes.len() as int, i);
    lemma_offset_step(free, i);
    lemma_offset_mono(free, 0, i);
}

/// The starting offsets of the items laid end to end, and their total.
fn offsets(s: &Vec<Sectors>) -> (r: Vec<u64>)
    requires
        total_sectors(s@) <= u64::MAX,
    ensures
        r@.len() == s@.len() + 1,
        forall|i: int| 0 <= i <= s@.len() ==> #[trigger] r@[i] == offset(s@, i),
{
    let mut r: Vec<u64> = Vec::new();
    let mut acc: u64 = 0;
    let mut i: usize = 0;
    proof {
        assert(s@.take(0) =~= Seq::<Sectors>::empty());
    }
    while i < s.len()
        invariant
            i <= s@.len(),
            r@.len() == i,
            acc == offset(s@, i as int),
            forall|j: int| 0 <= j < i ==> #[trigger] r@[j] == offset(s@, j),
            total_sectors(s@) <= u64::MAX,
        decreases s@.len() - i,
    {
        r.push(acc);
        proof {
            lemma_offset_step(s@, i as int);
            lemma_offset_mono(s@, i as int + 1, s@.len() as int);
            assert(s@.take(s@.len() as int) =~= s@);
        }
        acc = acc + s[i].0;
        i = i + 1;
    }
    r.push(acc);
    r
}

/// Allocate space for requests of the given sizes from devices with the
/// given free sectors: nothing, when the devices have less free space in
/// all than the requests ask for in all; otherwise, for each request, the
/// sectors it takes from each device, the devices filled in order as the
/// requests come.
pub fn request_space(free: &Vec<Sectors>, sizes: &Vec<Sectors>) -> (r: Option<Vec<Vec<Sectors>>>)
    requires
        total_sectors(free@) <= u64::MAX,
        total_sectors(sizes@) <= u64::MAX,
    ensures
        r is None <==> total_sectors(free@) < total_sectors(sizes@),
        r matches Some(plan) ==> {
            &&& plan@.len() == sizes@.len()
            &&& forall|k: int| 0 <= k < plan@.len() ==> (#[trigger] plan@[k])@.len() == free@.len()
            &&& forall|k: int, i: int|
                0 <= k < plan@.len() && 0 <= i < free@.len() ==> (#[trigger] plan@[k]@[i]).0 == share(
                    free@,
                    sizes@,
                    k,
                    i,
                )
        },
{
    let fo = offsets(free);
    let so = offsets(sizes);
    proof {
        assert(free@.take(free@.len() as int) =~= free@);
        assert(sizes@.take(sizes@.len() as int) =~= sizes@);
    }
    if fo[free.len()] < so[sizes.len()] {
        return None;
    }
    let mut plan: Vec<Vec<Sectors>> = Vec::new();
    let mut k: usize = 0;
    while k < sizes.len()
        invariant
            k <= sizes@.len(),
            plan@.len() == k,
            fo@.len() == free@.len() + 1,
            so@.len() == sizes@.len() + 1,
            forall|i: int| 0 <= i <= free@.len() ==> #[trigger] fo@[i] == offset(free@, i),
            forall|i: int| 0 <= i <= sizes@.len() ==> #[trigger] so@[i] == offset(sizes@, i),
            forall|j: int| 0 <= j < k ==> (#[trigger] plan@[j])@.len() == free@.len(),
            forall|j: int, i: int|
                0 <= j < k && 0 <= i < free@.len() ==> (#[trigger] plan@[j]@[i]).0 == share(free@, sizes@, j, i),
        decreases sizes@.len() - k,
    {
        let mut row: Vec<Sectors> = Vec::new();
        let next = k + 1;
        let mut i: usize = 0;
        while i < free.len()
            invariant
                k < sizes@.len(),
                next == k + 1,
                i <= free@.len(),
                row@.len() == i,
                fo@.len() == free@.len() + 1,
                so@.len() == sizes@.len() + 1,
                forall|x: int| 0 <= x <= free@.len() ==> #[trigger] fo@[x] == offset(free@, x),
                forall|x: int| 0 <= x <= sizes@.len() ==> #[trigger] so@[x] == offset(sizes@, x),
                forall|x: int| 0 <= x < i ==> (#[trigger] row@[x]).0 == share(free@, sizes@, k as int, x),
            decreases free@.len() - i,
        {
            let lo = if so[k] < fo[i] { fo[i] } else { so[k] };
            let hi = if so[next] < fo[i + 1] { so[next] } else { fo[i + 1] };
            let amount = if lo < hi { hi - lo } else { 0 };
            row.push(Sectors(amount));
            i = i + 1;
        }
        plan.push(row);
        k = k + 1;
    }
    Some(plan)
}

/// The largest size of a cache sub-device: 32 TiB, in sectors.
pub const MAX_CACHE_SIZE: u64 = 68719476736;

/// Whether the cache may take in the free space of newly added devices:
/// refused when the cache sub-device would then exceed `MAX_CACHE_SIZE`.
pub fn check_cache_size(avail: Sectors, cache_size: Sectors) -> (r: Result<(), StratisError>)
    ensures
        avail.0 + cache_size.0 <= MAX_CACHE_SIZE ==> r is Ok,
        avail.0 + cache_size.0 > MAX_CACHE_SIZE ==> r == Err::<(), StratisError>(
            StratisError::CacheTooLarge(MAX_CACHE_SIZE),
        ),
{
    if avail.0 as u128 + cache_size.0 as u128 > MAX_CACHE_SIZE as u128 {
        Err(StratisError::CacheTooLarge(MAX_CACHE_SIZE))
    } else {
        Ok(())
    }
}

/// The position of the last device of the list with UUID `u`, if any.
pub open spec fn last_index_of(devs: Seq<u128>, u: u128) -> Option<int>
    decreases devs.len(),
{
    if devs.len() == 0 {
        None
    } else if devs.last() == u {
        Some(devs.len() - 1)
    } else {
        last_index_of(devs.drop_last(), u)
    }
}

/// A list with the item at `i` removed by moving the last item into its
/// place, as `Vec::swap_remove` does.
pub open spec fn swap_removed(devs: Seq<u128>, i: int) -> Seq<u128> {
    devs.update(i, devs.last()).drop_last()
}

/// The devices left after removing, one UUID after the other, the last
/// device with that UUID; `None` when some UUID names no device left.
pub open spec fn devices_after_removal(devs: Seq<u128>, uuids: Seq<u128>) -> Option<Seq<u128>>
    decreases uuids.len(),
{
    if uuids.len() == 0 {
        Some(devs)
    } else {
        match devices_after_removal(devs, uuids.drop_last()) {
            None => None,
            Some(d) => match last_index_of(d, uuids.last()) {
                None => None,
                Some(i) => Some(swap_removed(d, i)),
            },
        }
    }
}

proof fn lemma_last_index_of(devs: Seq<u128>, u: u128)
    ensures
        last_index_of(devs, u) matches Some(i) ==> 0 <= i < devs.len() && devs[i] == u,
    decreases devs.len(),
{
    if devs.len() > 0 {
        lemma_last_index_of(devs.drop_last(), u);
    }
}

fn find_last(devs: &Vec<u128>, u: u128) -> (r: Option<usize>)
    ensures
        match last_index_of(devs@, u) {
            Some(i) => r == Some(i as usize),
            None => r is None,
        },
{
    let mut k: usize = devs.len();
    proof {
        assert(devs@.take(devs@.len() as int) =~= devs@);
    }
    while k > 0
        invariant
            k <= devs@.len(),
            last_index_of(devs@, u) == last_index_of(devs@.take(k as int), u),
        decreases k,
    {
        proof {
            assert(devs@.take(k as int).drop_last() =~= devs@.take(k - 1));
        }
        if devs[k - 1] == u {
            return Some(k - 1);
        }
        k = k - 1;
    }
    proof {
        assert(devs@.take(0) =~= Seq::<u128>::empty());
    }
    None
}

/// Remove the devices with the given UUIDs from a pool's list of devices,
/// each the last device with its UUID, moving the last device into its
/// place; when some UUID names no device, refused with nothing removed.
/// The removed UUIDs come back in the order they were named.
pub fn remove_blockdevs(devs: &mut Vec<u128>, uuids: &Vec<u128>) -> (r: Result<Vec<u128>, StratisError>)
    ensures
        match devices_after_removal(old(devs)@, uuids@) {
            Some(d) => (r matches Ok(v) && v@ == uuids@) && final(devs)@ == d,
            None => r matches Err(StratisError::BlockdevUuidNotFound(u)) && uuids@.contains(u)
                && final(devs)@ == old(devs)@,
        },
{
    let mut work = devs.clone();
    let mut j: usize = 0;
    proof {
        assert(work@ =~= devs@);
        assert(uuids@.take(0) =~= Seq::<u128>::empty());
    }
    while j < uuids.len()
        invariant
            j <= uuids@.len(),
            devs@ == old(devs)@,
            devices_after_removal(devs@, uuids@.take(j as int)) == Some(work@),
        decreases uuids@.len() - j,
    {
        proof {
            assert(uuids@.take(j + 1).drop_last() =~= uuids@.take(j as int));
            assert(uuids@.take(j + 1).last() == uuids@[j as int]);
        }
        match find_last(&work, uuids[j]) {
            None => {
                proof {
                    lemma_after_removal_stops(devs@, uuids@, j as int + 1);
                    assert(uuids@.contains(uuids@[j as int]));
                }
                return Err(StratisError::BlockdevUuidNotFound(uuids[j]));
            },
            Some(i) => {
                proof {
                    lemma_last_index_of(work@, uuids@[j as int]);
                }
                let ghost before = work@;
                work.swap_remove(i);
                proof {
                    assert(work@ =~= swap_removed(before, i as int));
                }
            },
        }
        j = j + 1;
    }
    proof {
        assert(uuids@.take(uuids@.len() as int) =~= uuids@);
    }
    *devs = work;
    let removed = uuids.clone();
    proof {
        assert(removed@ =~= uuids@);
    }
    Ok(removed)
}

/// Once a removal fails, removing more fails too.
proof fn lemma_after_removal_stops(devs: Seq<u128>, uuids: Seq<u128>, k: int)
    requires
        0 <= k <= uuids.len(),
        devices_after_removal(devs, uuids.take(k)) is None,
    ensures
        devices_after_removal(devs, uuids) is None,
    decreases uuids.len() - k,
{
    if k < uuids.len() {
        assert(uuids.take(k + 1).drop_last() =~= uuids.take(k));
        lemma_after_removal_stops(devs, uuids, k + 1);
    } else {
        assert(uuids.take(k) =~= uuids);
    }
}

} // verus!
