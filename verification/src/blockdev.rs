//! What the engine tracks of a Stratis block device that can be decided
//! without touching the device.

use vstd::prelude::*;
use crate::engine::StateDiff;
use crate::errors::{ErrorReason, StratisError};
use crate::integrity::{integrity_meta_sectors, integrity_meta_space, ValidatedIntegritySpec};
use crate::types::Diff;
use crate::units::{Bytes, Sectors};

verus! {

/// The logical and physical sector sizes of a device.
#[derive(Debug, Clone, Copy, PartialEq, Eq, Structural, Hash)]
pub struct BlockSizes {
    pub logical_sector_size: Bytes,
    pub physical_sector_size: Bytes,
}

/// The sector sizes of a block device and, when it is encrypted, of the
/// encrypted device over it.
#[derive(Debug, Clone, Copy, PartialEq, Eq, Structural, Hash)]
pub struct StratSectorSizes {
    pub base: BlockSizes,
    pub crypt: Option<BlockSizes>,
}

/// The changeable state of a block device: the size it may grow to.
#[derive(Debug, Clone, Copy, PartialEq, Eq, Structural)]
pub struct StratBlockDevState {
    pub new_size: Option<Sectors>,
}

/// The size recorded as new once a device is seen at `seen`: none when it
/// agrees with the size its metadata records.
pub open spec fn new_size_after(recorded: Sectors, seen: Sectors) -> Option<Sectors> {
    if recorded == seen {
        None
    } else {
        Some(seen)
    }
}

/// The size to report for a device scanned at `scanned`: none when it is
/// the size already recorded as new, or, with none recorded as new, the
/// size its metadata records.
pub open spec fn size_to_report(new_size: Option<Sectors>, recorded: Sectors, scanned: Sectors) -> Option<Sectors> {
    if Some(scanned) == new_size || (new_size is None && scanned == recorded) {
        None
    } else {
        Some(scanned)
    }
}

impl StratBlockDevState {
    /// Record the size a device has newly been seen at: kept when it
    /// differs from the size its metadata records (larger, or smaller when
    /// the device shrank), cleared when they agree.
    pub fn set_new_size(&mut self, recorded: Sectors, new_size: Sectors)
        ensures
            final(self).new_size == new_size_after(recorded, new_size),
    {
        if recorded.0 == new_size.0 {
            self.new_size = None;
        } else {
            self.new_size = Some(new_size);
        }
    }

    /// The size to report for a device scanned at `scanned`.
    pub fn calc_new_size(&self, recorded: Sectors, scanned: Sectors) -> (r: Option<Sectors>)
        ensures
            r == size_to_report(self.new_size, recorded, scanned),
    {
        let same_as_new = match self.new_size {
            Some(n) => n.0 == scanned.0,
            None => false,
        };
        if same_as_new || (self.new_size.is_none() && scanned.0 == recorded.0) {
            None
        } else {
            Some(scanned)
        }
    }
}

/// Once the size a device was seen at is recorded, scanning it at that
/// size again reports nothing new.
pub proof fn law_new_size_reported_once(recorded: Sectors, seen: Sectors)
    ensures
        size_to_report(new_size_after(recorded, seen), recorded, seen) is None,
{
}

/// What changed of a block device's state.
#[derive(Debug, PartialEq, Eq)]
pub struct StratBlockDevDiff {
    pub size: Diff<Option<Sectors>>,
}

/// A value compared with a newer one: the newer one, marked changed when
/// they differ.
pub fn compare_sizes(old: Option<Sectors>, new: Option<Sectors>) -> (r: Diff<Option<Sectors>>)
    ensures
        old == new ==> r == Diff::Unchanged(old),
        old != new ==> r == Diff::Changed(new),
{
    let same = match (old, new) {
        (Some(a), Some(b)) => a.0 == b.0,
        (None, None) => true,
        _ => false,
    };
    if same {
        Diff::Unchanged(old)
    } else {
        Diff::Changed(new)
    }
}

impl StateDiff for StratBlockDevState {
    type Diff = StratBlockDevDiff;

    fn diff(&self, new_state: &Self) -> (r: StratBlockDevDiff)
        ensures
            r.size == if self.new_size == new_state.new_size {
                Diff::Unchanged(self.new_size)
            } else {
                Diff::Changed(new_state.new_size)
            },
    {
        StratBlockDevDiff { size: compare_sizes(self.new_size, new_state.new_size) }
    }

    fn unchanged(&self) -> (r: StratBlockDevDiff)
        ensures
            r.size == Diff::Unchanged(self.new_size),
    {
        StratBlockDevDiff { size: Diff::Unchanged(self.new_size) }
    }
}

/// The total length of a list of allocations given as (start, length).
pub open spec fn total_length(allocs: Seq<(Sectors, Sectors)>) -> int
    decreases allocs.len(),
{
    if allocs.len() == 0 {
        0
    } else {
        total_length(allocs.drop_last()) + allocs.last().1.0
    }
}

/// The total length of a list of allocations.
pub fn sum_lengths(allocs: &Vec<(Sectors, Sectors)>) -> (r: Sectors)
    requires
        total_length(allocs@) <= u64::MAX,
    ensures
        r.0 == total_length(allocs@),
{
    let mut total: u64 = 0;
    let mut i: usize = 0;
    while i < allocs.len()
        invariant
            i <= allocs@.len(),
            total == total_length(allocs@.take(i as int)),
            total_length(allocs@) <= u64::MAX,
        decreases allocs@.len() - i,
    {
        proof {
            assert(allocs@.take(i as int + 1).drop_last() =~= allocs@.take(i as int));
            lemma_total_prefix(allocs@, i as int + 1);
        }
        total = total + allocs[i].1.0;
        i = i + 1;
    }
    proof {
        assert(allocs@.take(allocs@.len() as int) =~= allocs@);
    }
    Sectors(total)
}

/// A prefix of a list of allocations is no longer than the list.
pub proof fn lemma_total_prefix(allocs: Seq<(Sectors, Sectors)>, k: int)
    requires
        0 <= k <= allocs.len(),
    ensures
        total_length(allocs.take(k)) <= total_length(allocs),
    decreases allocs.len() - k,
{
    if k < allocs.len() {
        lemma_total_prefix(allocs, k + 1);
        assert(allocs.take(k + 1).drop_last() =~= allocs.take(k));
    } else {
        assert(allocs.take(k) =~= allocs);
    }
}

/// What growing a block device to its current size comes to: refused when
/// the device is smaller than its metadata records; nothing to do when the
/// sizes agree; otherwise the device grows, and the sectors of integrity
/// metadata that must be added to those already reserved are returned.
pub fn grow_plan(
    size: Sectors,
    recorded: Sectors,
    integrity_spec: ValidatedIntegritySpec,
    integrity_allocs: &Vec<(Sectors, Sectors)>,
) -> (r: Result<Option<Sectors>, StratisError>)
    requires
        integrity_spec.block_size.0 > 0,
        integrity_meta_sectors(size.0 as nat, integrity_spec) <= u64::MAX,
        total_length(integrity_allocs@) <= integrity_meta_sectors(size.0 as nat, integrity_spec),
    ensures
        size.0 < recorded.0 ==> r == Err::<Option<Sectors>, StratisError>(StratisError::Msg(ErrorReason::Shrunk)),
        size.0 == recorded.0 ==> r == Ok::<Option<Sectors>, StratisError>(None),
        size.0 > recorded.0 ==> (r matches Ok(Some(extra)) && extra.0 == integrity_meta_sectors(size.0 as nat, integrity_spec)
            - total_length(integrity_allocs@)),
{
    if size.0 < recorded.0 {
        Err(StratisError::Msg(ErrorReason::Shrunk))
    } else if size.0 == recorded.0 {
        Ok(None)
    } else {
        let needed = integrity_meta_space(size, integrity_spec);
        let reserved = sum_lengths(integrity_allocs);
        Ok(Some(Sectors(needed.0 - reserved.0)))
    }
}

/// The space of a block device as its allocator tracks it: the size its
/// metadata records, the sectors handed out (Stratis metadata, data and
/// integrity metadata), and the integrity metadata allocations.
pub struct DevSpace {
    pub total: Sectors,
    pub used: Sectors,
    pub integrity_meta_allocs: Vec<(Sectors, Sectors)>,
}

impl DevSpace {
    /// No more is handed out than the device holds, and the integrity
    /// metadata is part of what is handed out.
    pub open spec fn wf(&self) -> bool {
        &&& self.used.0 <= self.total.0
        &&& total_length(self.integrity_meta_allocs@) <= self.used.0
    }

    /// Sectors not yet handed out.
    pub open spec fn free(&self) -> int {
        self.total.0 - self.used.0
    }

    /// The size the device's metadata records.
    pub fn total_size(&self) -> (r: Sectors)
        ensures
            r == self.total,
    {
        self.total
    }

    /// Sectors not yet handed out.
    pub fn available(&self) -> (r: Sectors)
        requires
            self.wf(),
        ensures
            r.0 == self.free(),
    {
        Sectors(self.total.0 - self.used.0)
    }

    /// Grow the device to `size`, the size it was scanned at, once its
    /// static header records that size: refused, with nothing changed, when
    /// the device has shrunk; nothing to do when the sizes agree; otherwise
    /// the recorded size becomes `size` and every added sector is free.
    pub fn grow(&mut self, size: Sectors) -> (r: Result<bool, StratisError>)
        requires
            old(self).wf(),
        ensures
            final(self).wf(),
            size.0 < old(self).total.0 ==> r == Err::<bool, StratisError>(StratisError::Msg(ErrorReason::Shrunk))
                && *final(self) == *old(self),
            size.0 == old(self).total.0 ==> r == Ok::<bool, StratisError>(false) && *final(self) == *old(self),
            r is Ok ==> final(self).total == size && final(self).free() >= old(self).free(),
            size.0 > old(self).total.0 ==> {
                &&& r == Ok::<bool, StratisError>(true)
                &&& final(self).total == size
                &&& final(self).used == old(self).used
                &&& final(self).integrity_meta_allocs@ == old(self).integrity_meta_allocs@
                &&& final(self).free() == old(self).free() + (size.0 - old(self).total.0)
            },
    {
        if size.0 < self.total.0 {
            Err(StratisError::Msg(ErrorReason::Shrunk))
        } else if size.0 == self.total.0 {
            Ok(false)
        } else {
            self.total = size;
            Ok(true)
        }
    }

    /// Grow a device that carries integrity metadata to `size`: as `grow`,
    /// and when the device grows, the integrity metadata that the larger
    /// size needs beyond what is reserved is taken from the back of the
    /// added sectors. `requires` asks that the added sectors hold it; where
    /// the allocator would take the rest from otherwise is not modelled.
    pub fn grow_with_integrity(&mut self, size: Sectors, integrity_spec: ValidatedIntegritySpec) -> (r: Result<
        bool,
        StratisError,
    >)
        requires
            old(self).wf(),
            integrity_spec.block_size.0 > 0,
            integrity_meta_sectors(size.0 as nat, integrity_spec) <= u64::MAX,
            total_length(old(self).integrity_meta_allocs@) <= integrity_meta_sectors(size.0 as nat, integrity_spec),
            size.0 > old(self).total.0 ==> integrity_meta_sectors(size.0 as nat, integrity_spec) - total_length(
                old(self).integrity_meta_allocs@,
            ) <= size.0 - old(self).total.0,
        ensures
            final(self).wf(),
            size.0 < old(self).total.0 ==> r == Err::<bool, StratisError>(StratisError::Msg(ErrorReason::Shrunk))
                && *final(self) == *old(self),
            size.0 == old(self).total.0 ==> r == Ok::<bool, StratisError>(false) && *final(self) == *old(self),
            r is Ok ==> final(self).total == size && final(self).free() >= old(self).free(),
            size.0 > old(self).total.0 ==> {
                let extra = integrity_meta_sectors(size.0 as nat, integrity_spec) - total_length(
                    old(self).integrity_meta_allocs@,
                );
                &&& r == Ok::<bool, StratisError>(true)
                &&& final(self).total == size
                &&& final(self).used.0 == old(self).used.0 + extra
                &&& final(self).integrity_meta_allocs@ == old(self).integrity_meta_allocs@.push(
                    (Sectors((size.0 - extra) as u64), Sectors(extra as u64)),
                )
                &&& total_length(final(self).integrity_meta_allocs@) == integrity_meta_sectors(
                    size.0 as nat,
                    integrity_spec,
                )
                &&& final(self).free() == old(self).free() + (size.0 - old(self).total.0) - extra
            },
    {
        match grow_plan(size, self.total, integrity_spec, &self.integrity_meta_allocs) {
            Err(e) => Err(e),
            Ok(None) => Ok(false),
            Ok(Some(extra)) => {
                let ghost before = self.integrity_meta_allocs@;
                self.total = size;
                self.used = Sectors(self.used.0 + extra.0);
                self.integrity_meta_allocs.push((Sectors(size.0 - extra.0), extra));
                proof {
                    assert(self.integrity_meta_allocs@.drop_last() =~= before);
                }
                Ok(true)
            },
        }
    }
}

} // verus!
