//! Decisions about the device stack of a pool's backstore: the origin
//! device over the data tier, the placeholder or cache device over it, and
//! the encryption layer on top.

use vstd::prelude::*;
use crate::blockdev::{lemma_total_prefix, total_length};
use crate::errors::{ErrorReason, StratisError};
use crate::units::Sectors;

verus! {

/// The state of the encryption layer: none, requested but not yet set up,
/// or set up.
#[derive(Debug, Clone, Copy, PartialEq, Eq, Structural)]
pub enum EncState {
    Unencrypted,
    Pending,
    Active,
}

/// What extending the capacity device over a grown data tier takes.
#[derive(Debug, Clone, Copy, PartialEq, Eq, Structural)]
pub enum CapPlan {
    /// Build the origin and placeholder devices, then set up encryption if
    /// it is pending, or wipe the start of the placeholder if there is none.
    Create,
    /// Reload the cache device's origin table; then resize the encryption
    /// layer if `resize_crypt`.
    ReloadCacheOrigin { resize_crypt: bool },
    /// Reload the origin device's table and the placeholder's table over it;
    /// then resize the encryption layer if `resize_crypt`.
    ReloadOrigin { resize_crypt: bool },
}

/// The device stack states in which a capacity device can be extended: the
/// cache device and the origin with its placeholder are never both present,
/// and an active encryption layer sits on one of them.
pub open spec fn cap_state_ok(has_cache: bool, has_origin: bool, enc: EncState) -> bool {
    &&& !(has_cache && has_origin) || enc == EncState::Pending
    &&& !(!has_cache && !has_origin && enc == EncState::Active)
}

/// The plan for extending the capacity device, given whether there is a
/// cache device, whether there are an origin and a placeholder device, and
/// the state of encryption.
pub fn extend_cap_plan(has_cache: bool, has_origin: bool, enc: EncState) -> (r: CapPlan)
    requires
        cap_state_ok(has_cache, has_origin, enc),
    ensures
        r == if enc == EncState::Pending || (!has_cache && !has_origin) {
            CapPlan::Create
        } else if has_cache {
            CapPlan::ReloadCacheOrigin { resize_crypt: enc == EncState::Active }
        } else {
            CapPlan::ReloadOrigin { resize_crypt: enc == EncState::Active }
        },
{
    match (has_cache, has_origin, enc) {
        (false, false, EncState::Unencrypted) => CapPlan::Create,
        (_, _, EncState::Pending) => CapPlan::Create,
        (true, false, EncState::Active) => CapPlan::ReloadCacheOrigin { resize_crypt: true },
        (true, false, EncState::Unencrypted) => CapPlan::ReloadCacheOrigin { resize_crypt: false },
        (false, true, EncState::Active) => CapPlan::ReloadOrigin { resize_crypt: true },
        (false, true, EncState::Unencrypted) => CapPlan::ReloadOrigin { resize_crypt: false },
        _ => CapPlan::Create,
    }
}

/// Which device sits over the origin when a backstore is set up.
#[derive(Debug, Clone, Copy, PartialEq, Eq, Structural)]
pub enum CacheLayout {
    /// A cache device built from the cache tier.
    Cache,
    /// A placeholder device.
    Placeholder,
}

/// The device over the origin when a backstore is set up: a cache when
/// there are cache devices and recorded cache metadata; a placeholder when
/// there are no cache devices; refused when there are cache devices but no
/// cache metadata.
pub fn cache_layout(has_cachedevs: bool, has_cache_save: bool) -> (r: Result<CacheLayout, StratisError>)
    ensures
        !has_cachedevs ==> r == Ok::<CacheLayout, StratisError>(CacheLayout::Placeholder),
        has_cachedevs && has_cache_save ==> r == Ok::<CacheLayout, StratisError>(CacheLayout::Cache),
        has_cachedevs && !has_cache_save ==> r == Err::<CacheLayout, StratisError>(
            StratisError::Msg(ErrorReason::CacheMetadataMissing),
        ),
{
    if !has_cachedevs {
        Ok(CacheLayout::Placeholder)
    } else if has_cache_save {
        Ok(CacheLayout::Cache)
    } else {
        Err(StratisError::Msg(ErrorReason::CacheMetadataMissing))
    }
}

/// Whether a backstore being set up is to open its encryption layer, from
/// whether the pool's metadata records encryption and whether a LUKS2 header
/// was found; refused when the two disagree.
pub fn crypt_setup_plan(metadata_enc_enabled: bool, has_header: bool) -> (r: Result<bool, StratisError>)
    ensures
        metadata_enc_enabled && has_header ==> r == Ok::<bool, StratisError>(true),
        !metadata_enc_enabled && !has_header ==> r == Ok::<bool, StratisError>(false),
        metadata_enc_enabled && !has_header ==> r == Err::<bool, StratisError>(
            StratisError::Msg(ErrorReason::EncryptionHeaderMissing),
        ),
        !metadata_enc_enabled && has_header ==> r == Err::<bool, StratisError>(
            StratisError::Msg(ErrorReason::UnexpectedEncryptionHeader),
        ),
{
    match (metadata_enc_enabled, has_header) {
        (true, true) => Ok(true),
        (true, false) => Err(StratisError::Msg(ErrorReason::EncryptionHeaderMissing)),
        (false, true) => Err(StratisError::Msg(ErrorReason::UnexpectedEncryptionHeader)),
        (false, false) => Ok(false),
    }
}

/// The total of a list of requested sizes.
pub open spec fn sizes_total(sizes: Seq<Sectors>) -> int
    decreases sizes.len(),
{
    if sizes.len() == 0 {
        0
    } else {
        sizes_total(sizes.drop_last()) + sizes.last().0
    }
}

/// The segments, given as (start, length), lie end to end from `start`.
pub open spec fn laid_from(segs: Seq<(Sectors, Sectors)>, start: int) -> bool {
    forall|i: int| 0 <= i < segs.len() ==> (#[trigger] segs[i]).0.0 == start + total_length(segs.take(i))
}

proof fn lemma_sizes_prefix(sizes: Seq<Sectors>, k: int)
    requires
        0 <= k <= sizes.len(),
    ensures
        sizes_total(sizes.take(k)) <= sizes_total(sizes),
    decreases sizes.len() - k,
{
    if k < sizes.len() {
        lemma_sizes_prefix(sizes, k + 1);
        assert(sizes.take(k + 1).drop_last() =~= sizes.take(k));
    } else {
        assert(sizes.take(k) =~= sizes);
    }
}

/// The end of segments laid end to end from `start`: where the last one
/// ends, or `start` when there are none.
fn segments_end(segs: &Vec<(Sectors, Sectors)>, start: u64) -> (r: Sectors)
    requires
        laid_from(segs@, start as int),
        start + total_length(segs@) <= u64::MAX,
    ensures
        r.0 == start + total_length(segs@),
{
    let n = segs.len();
    if n == 0 {
        Sectors(start)
    } else {
        proof {
            assert(segs@.take(n - 1) =~= segs@.drop_last());
            assert(segs@[n - 1] == segs@.last());
        }
        let last = segs[n - 1];
        Sectors(last.0.0 + last.1.0)
    }
}

/// Whether requests of the given sizes fit in the space available.
pub fn requests_fit(available: Sectors, sizes: &Vec<Sectors>) -> (r: bool)
    ensures
        r == (sizes_total(sizes@) <= available.0),
{
    let mut acc: u64 = 0;
    let mut i: usize = 0;
    while i < sizes.len()
        invariant
            i <= sizes@.len(),
            acc == sizes_total(sizes@.take(i as int)),
            acc <= available.0,
        decreases sizes@.len() - i,
    {
        proof {
            assert(sizes@.take(i as int + 1).drop_last() =~= sizes@.take(i as int));
        }
        if sizes[i].0 > available.0 - acc {
            proof {
                lemma_sizes_prefix(sizes@, i as int + 1);
            }
            return false;
        }
        acc = acc + sizes[i].0;
        i = i + 1;
    }
    proof {
        assert(sizes@.take(sizes@.len() as int) =~= sizes@);
    }
    true
}

/// The allocations made from a pool's backstore: data allocations on the
/// capacity device, and allocations of encryption metadata at the start of
/// the cache or placeholder device, each as (start, length).
pub struct CapAllocs {
    pub allocs: Vec<(Sectors, Sectors)>,
    pub crypt_meta_allocs: Vec<(Sectors, Sectors)>,
    pub enc: EncState,
}

impl CapAllocs {
    /// Where the data allocations begin: after the encryption metadata on
    /// an unencrypted pool; at the start of the encrypted device otherwise.
    pub open spec fn cap_base(&self) -> int {
        if self.enc == EncState::Unencrypted {
            total_length(self.crypt_meta_allocs@)
        } else {
            0
        }
    }

    /// The next free sector of the capacity device.
    pub open spec fn next_cap(&self) -> int {
        self.cap_base() + total_length(self.allocs@)
    }

    /// The metadata allocations lie end to end from the start of the
    /// device, and the data allocations end to end from their base.
    pub open spec fn wf(&self) -> bool {
        &&& laid_from(self.crypt_meta_allocs@, 0)
        &&& total_length(self.crypt_meta_allocs@) <= u64::MAX
        &&& laid_from(self.allocs@, self.cap_base())
        &&& self.next_cap() <= u64::MAX
    }

    /// No allocations yet.
    pub fn new(enc: EncState) -> (r: CapAllocs)
        ensures
            r.wf(),
            r.allocs@.len() == 0,
            r.crypt_meta_allocs@.len() == 0,
            r.enc == enc,
    {
        CapAllocs { allocs: Vec::new(), crypt_meta_allocs: Vec::new(), enc }
    }

    /// The next free sector of the capacity device.
    pub fn calc_next_cap(&self) -> (r: Sectors)
        requires
            self.wf(),
        ensures
            r.0 == self.next_cap(),
    {
        let base = if matches!(self.enc, EncState::Unencrypted) {
            segments_end(&self.crypt_meta_allocs, 0).0
        } else {
            0
        };
        segments_end(&self.allocs, base)
    }

    /// The next free sector for encryption metadata; refused once data has
    /// been allocated or the encryption layer is set up, since metadata
    /// goes only before both.
    pub fn calc_next_cache(&self) -> (r: Result<Sectors, StratisError>)
        requires
            self.wf(),
        ensures
            self.allocs@.len() > 0 || self.enc == EncState::Active ==> r == Err::<Sectors, StratisError>(
                StratisError::Msg(ErrorReason::CacheMetadataAfterData),
            ),
            !(self.allocs@.len() > 0 || self.enc == EncState::Active) ==> r == Ok::<Sectors, StratisError>(
                Sectors(total_length(self.crypt_meta_allocs@) as u64),
            ),
    {
        if self.allocs.len() > 0 || matches!(self.enc, EncState::Active) {
            Err(StratisError::Msg(ErrorReason::CacheMetadataAfterData))
        } else {
            Ok(segments_end(&self.crypt_meta_allocs, 0))
        }
    }

    /// The sectors of the data tier allocated to the capacity device.
    pub fn datatier_allocated_size(&self) -> (r: Sectors)
        requires
            self.wf(),
        ensures
            r.0 == total_length(self.allocs@),
    {
        crate::blockdev::sum_lengths(&self.allocs)
    }

    /// Record data allocations of the given sizes, each placed where the
    /// previous one ends; returns them.
    pub fn alloc_segments(&mut self, sizes: &Vec<Sectors>) -> (r: Vec<(Sectors, Sectors)>)
        requires
            old(self).wf(),
            old(self).next_cap() + sizes_total(sizes@) <= u64::MAX,
        ensures
            final(self).wf(),
            final(self).crypt_meta_allocs@ == old(self).crypt_meta_allocs@,
            final(self).enc == old(self).enc,
            final(self).allocs@ == old(self).allocs@ + r@,
            r@.len() == sizes@.len(),
            forall|i: int| 0 <= i < r@.len() ==> (#[trigger] r@[i]).1 == sizes@[i],
            laid_from(r@, old(self).next_cap()),
            final(self).next_cap() == old(self).next_cap() + sizes_total(sizes@),
    {
        let ghost start = self.next_cap();
        let ghost old_allocs = self.allocs@;
        let mut chunks: Vec<(Sectors, Sectors)> = Vec::new();
        let mut i: usize = 0;
        while i < sizes.len()
            invariant
                i <= sizes@.len(),
                self.wf(),
                self.crypt_meta_allocs@ == old(self).crypt_meta_allocs@,
                self.enc == old(self).enc,
                self.allocs@ == old_allocs + chunks@,
                start == old(self).next_cap(),
                start == self.cap_base() + total_length(old_allocs),
                chunks@.len() == i,
                forall|k: int| 0 <= k < i ==> (#[trigger] chunks@[k]).1 == sizes@[k],
                laid_from(chunks@, start),
                total_length(chunks@) == sizes_total(sizes@.take(i as int)),
                start + sizes_total(sizes@) <= u64::MAX,
            decreases sizes@.len() - i,
        {
            proof {
                assert(sizes@.take(i as int + 1).drop_last() =~= sizes@.take(i as int));
                lemma_sizes_prefix(sizes@, i as int + 1);
                lemma_total_append(old_allocs, chunks@);
            }
            let next = self.calc_next_cap();
            let seg = (next, sizes[i]);
            let ghost prev_chunks = chunks@;
            let ghost prev_allocs = self.allocs@;
            chunks.push(seg);
            self.allocs.push(seg);
            proof {
                assert(chunks@.drop_last() =~= prev_chunks);
                assert(self.allocs@.drop_last() =~= prev_allocs);
                assert forall|k: int| 0 <= k < chunks@.len() implies (#[trigger] chunks@[k]).0.0 == start + total_length(
                    chunks@.take(k),
                ) by {
                    if k < prev_chunks.len() {
                        assert(chunks@.take(k) =~= prev_chunks.take(k));
                    } else {
                        assert(chunks@.take(k) =~= prev_chunks);
                    }
                }
                assert forall|k: int| 0 <= k < self.allocs@.len() implies (#[trigger] self.allocs@[k]).0.0 == self.cap_base()
                    + total_length(self.allocs@.take(k)) by {
                    if k < prev_allocs.len() {
                        assert(self.allocs@.take(k) =~= prev_allocs.take(k));
                    } else {
                        assert(self.allocs@.take(k) =~= prev_allocs);
                    }
                }
                assert(self.allocs@ =~= old_allocs + chunks@);
            }
            i = i + 1;
        }
        proof {
            assert(sizes@.take(sizes@.len() as int) =~= sizes@);
            lemma_total_append(old_allocs, chunks@);
        }
        chunks
    }

    /// Record encryption metadata allocations of the given sizes, each
    /// placed where the previous one ends; refused, with nothing recorded,
    /// once data has been allocated or the encryption layer is set up.
    pub fn meta_alloc_segments(&mut self, sizes: &Vec<Sectors>) -> (r: Result<Vec<(Sectors, Sectors)>, StratisError>)
        requires
            old(self).wf(),
            total_length(old(self).crypt_meta_allocs@) + sizes_total(sizes@) <= u64::MAX,
        ensures
            final(self).wf(),
            final(self).allocs@ == old(self).allocs@,
            final(self).enc == old(self).enc,
            sizes@.len() > 0 && (old(self).allocs@.len() > 0 || old(self).enc == EncState::Active) ==> r
                == Err::<Vec<(Sectors, Sectors)>, StratisError>(StratisError::Msg(ErrorReason::CacheMetadataAfterData))
                && final(self).crypt_meta_allocs@ == old(self).crypt_meta_allocs@,
            !(sizes@.len() > 0 && (old(self).allocs@.len() > 0 || old(self).enc == EncState::Active)) ==> (r matches Ok(
                chunks,
            ) && {
                &&& final(self).crypt_meta_allocs@ == old(self).crypt_meta_allocs@ + chunks@
                &&& chunks@.len() == sizes@.len()
                &&& forall|i: int| 0 <= i < chunks@.len() ==> (#[trigger] chunks@[i]).1 == sizes@[i]
                &&& laid_from(chunks@, total_length(old(self).crypt_meta_allocs@))
            }),
    {
        let ghost start = total_length(self.crypt_meta_allocs@);
        let ghost old_meta = self.crypt_meta_allocs@;
        let mut chunks: Vec<(Sectors, Sectors)> = Vec::new();
        let mut i: usize = 0;
        while i < sizes.len()
            invariant
                i <= sizes@.len(),
                self.wf(),
                self.allocs@ == old(self).allocs@,
                self.enc == old(self).enc,
                self.crypt_meta_allocs@ == old_meta + chunks@,
                start == total_length(old_meta),
                old_meta == old(self).crypt_meta_allocs@,
                chunks@.len() == i,
                forall|k: int| 0 <= k < i ==> (#[trigger] chunks@[k]).1 == sizes@[k],
                laid_from(chunks@, start),
                total_length(chunks@) == sizes_total(sizes@.take(i as int)),
                start + sizes_total(sizes@) <= u64::MAX,
                i > 0 ==> !(old(self).allocs@.len() > 0 || old(self).enc == EncState::Active),
            decreases sizes@.len() - i,
        {
            proof {
                assert(sizes@.take(i as int + 1).drop_last() =~= sizes@.take(i as int));
                lemma_sizes_prefix(sizes@, i as int + 1);
                lemma_total_append(old_meta, chunks@);
            }
            let next = match self.calc_next_cache() {
                Ok(n) => n,
                Err(e) => {
                    return Err(e);
                },
            };
            let seg = (next, sizes[i]);
            let ghost prev_chunks = chunks@;
            let ghost prev_meta = self.crypt_meta_allocs@;
            chunks.push(seg);
            self.crypt_meta_allocs.push(seg);
            proof {
                assert(chunks@.drop_last() =~= prev_chunks);
                assert(self.crypt_meta_allocs@.drop_last() =~= prev_meta);
                assert forall|k: int| 0 <= k < chunks@.len() implies (#[trigger] chunks@[k]).0.0 == start + total_length(
                    chunks@.take(k),
                ) by {
                    if k < prev_chunks.len() {
                        assert(chunks@.take(k) =~= prev_chunks.take(k));
                    } else {
                        assert(chunks@.take(k) =~= prev_chunks);
                    }
                }
                assert forall|k: int| 0 <= k < self.crypt_meta_allocs@.len() implies (#[trigger] self.crypt_meta_allocs@[k]).0.0
                    == total_length(self.crypt_meta_allocs@.take(k)) by {
                    if k < prev_meta.len() {
                        assert(self.crypt_meta_allocs@.take(k) =~= prev_meta.take(k));
                    } else {
                        assert(self.crypt_meta_allocs@.take(k) =~= prev_meta);
                    }
                }
                assert(self.crypt_meta_allocs@ =~= old_meta + chunks@);
                assert(self.allocs@.len() == 0);
            }
            i = i + 1;
        }
        Ok(chunks)
    }
}

/// The segments requested for allocations of the given sizes, laid end to
/// end from `next`, the first sector not yet allocated; committing them
/// moves `next` past all of them.
pub fn request_segments(next: Sectors, sizes: &Vec<Sectors>) -> (r: Vec<(Sectors, Sectors)>)
    requires
        next.0 + sizes_total(sizes@) <= u64::MAX,
    ensures
        r@.len() == sizes@.len(),
        forall|i: int| 0 <= i < r@.len() ==> (#[trigger] r@[i]).1 == sizes@[i],
        laid_from(r@, next.0 as int),
        total_length(r@) == sizes_total(sizes@),
{
    let mut r: Vec<(Sectors, Sectors)> = Vec::new();
    let mut at: u64 = next.0;
    let mut i: usize = 0;
    proof {
        assert(sizes@.take(0) =~= Seq::<Sectors>::empty());
    }
    while i < sizes.len()
        invariant
            i <= sizes@.len(),
            r@.len() == i,
            forall|k: int| 0 <= k < i ==> (#[trigger] r@[k]).1 == sizes@[k],
            laid_from(r@, next.0 as int),
            total_length(r@) == sizes_total(sizes@.take(i as int)),
            at == next.0 + total_length(r@),
            next.0 + sizes_total(sizes@) <= u64::MAX,
        decreases sizes@.len() - i,
    {
        proof {
            assert(sizes@.take(i as int + 1).drop_last() =~= sizes@.take(i as int));
            lemma_sizes_prefix(sizes@, i as int + 1);
        }
        let ghost prev = r@;
        r.push((Sectors(at), sizes[i]));
        proof {
            assert(r@.drop_last() =~= prev);
            assert forall|k: int| 0 <= k < r@.len() implies (#[trigger] r@[k]).0.0 == next.0 + total_length(r@.take(k)) by {
                if k < prev.len() {
                    assert(r@.take(k) =~= prev.take(k));
                } else {
                    assert(r@.take(k) =~= prev);
                }
            }
        }
        at = at + sizes[i].0;
        i = i + 1;
    }
    proof {
        assert(sizes@.take(sizes@.len() as int) =~= sizes@);
    }
    r
}

/// The lines of a linear device over segments of a parent device, each as
/// (offset, length, start on the parent): each segment is mapped where the
/// previous one ends, from offset 0.
pub fn linear_table(segs: &Vec<(Sectors, Sectors)>) -> (r: Vec<(Sectors, Sectors, Sectors)>)
    requires
        total_length(segs@) <= u64::MAX,
    ensures
        r@.len() == segs@.len(),
        forall|i: int| 0 <= i < r@.len() ==> (#[trigger] r@[i]).1 == segs@[i].1 && r@[i].2 == segs@[i].0
            && r@[i].0.0 == total_length(segs@.take(i)),
{
    let mut r: Vec<(Sectors, Sectors, Sectors)> = Vec::new();
    let mut offset: u64 = 0;
    let mut i: usize = 0;
    proof {
        assert(segs@.take(0) =~= Seq::<(Sectors, Sectors)>::empty());
    }
    while i < segs.len()
        invariant
            i <= segs@.len(),
            r@.len() == i,
            offset == total_length(segs@.take(i as int)),
            total_length(segs@) <= u64::MAX,
            forall|k: int| 0 <= k < i ==> (#[trigger] r@[k]).1 == segs@[k].1 && r@[k].2 == segs@[k].0
                && r@[k].0.0 == total_length(segs@.take(k)),
        decreases segs@.len() - i,
    {
        proof {
            assert(segs@.take(i as int + 1).drop_last() =~= segs@.take(i as int));
            lemma_total_prefix(segs@, i as int + 1);
        }
        let (start, length) = segs[i];
        r.push((Sectors(offset), length, start));
        offset = offset + length.0;
        i = i + 1;
    }
    r
}

/// A segment of a list laid end to end ends where or before any later one
/// begins.
proof fn lemma_laid_ordered(segs: Seq<(Sectors, Sectors)>, start: int, i: int, j: int)
    requires
        laid_from(segs, start),
        0 <= i < j <= segs.len(),
    ensures
        segs[i].0.0 + segs[i].1.0 <= start + total_length(segs.take(j)),
{
    assert(segs.take(i + 1).drop_last() =~= segs.take(i));
    assert(segs.take(j).take(i + 1) =~= segs.take(i + 1));
    lemma_total_prefix(segs.take(j), i + 1);
}

/// No two allocations recorded in a well-formed ledger overlap: each data
/// allocation ends where or before any later one begins, and so does each
/// metadata allocation; on an unencrypted pool every metadata allocation
/// ends before any data allocation begins.
pub proof fn law_allocations_disjoint(a: CapAllocs, i: int, j: int)
    requires
        a.wf(),
    ensures
        0 <= i < j < a.allocs@.len() ==> a.allocs@[i].0.0 + a.allocs@[i].1.0 <= a.allocs@[j].0.0,
        0 <= i < j < a.crypt_meta_allocs@.len() ==> a.crypt_meta_allocs@[i].0.0 + a.crypt_meta_allocs@[i].1.0
            <= a.crypt_meta_allocs@[j].0.0,
        a.enc == EncState::Unencrypted && 0 <= i < a.crypt_meta_allocs@.len() && 0 <= j < a.allocs@.len()
            ==> a.crypt_meta_allocs@[i].0.0 + a.crypt_meta_allocs@[i].1.0 <= a.allocs@[j].0.0,
{
    if 0 <= i < j < a.allocs@.len() {
        lemma_laid_ordered(a.allocs@, a.cap_base(), i, j);
    }
    if 0 <= i < j < a.crypt_meta_allocs@.len() {
        lemma_laid_ordered(a.crypt_meta_allocs@, 0, i, j);
    }
    if a.enc == EncState::Unencrypted && 0 <= i < a.crypt_meta_allocs@.len() && 0 <= j < a.allocs@.len() {
        let m = a.crypt_meta_allocs@;
        lemma_laid_ordered(m, 0, i, m.len() as int);
        assert(m.take(m.len() as int) =~= m);
        assert(a.allocs@[j].0.0 == a.cap_base() + total_length(a.allocs@.take(j)));
        lemma_total_nonneg(a.allocs@.take(j));
    }
}

proof fn lemma_total_nonneg(s: Seq<(Sectors, Sectors)>)
    ensures
        total_length(s) >= 0,
    decreases s.len(),
{
    if s.len() > 0 {
        lemma_total_nonneg(s.drop_last());
    }
}

/// The total length of two lists of segments one after the other.
proof fn lemma_total_append(a: Seq<(Sectors, Sectors)>, b: Seq<(Sectors, Sectors)>)
    ensures
        total_length(a + b) == total_length(a) + total_length(b),
    decreases b.len(),
{
    if b.len() == 0 {
        assert(a + b =~= a);
    } else {
        lemma_total_append(a, b.drop_last());
        assert((a + b).drop_last() =~= a + b.drop_last());
    }
}

} // verus!
