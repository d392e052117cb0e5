//! Writing the pool-level metadata to the devices of a pool: which devices
//! are written, the time stamped on the metadata, and what a round of
//! writes comes to.

use vstd::prelude::*;
use crate::errors::{ErrorReason, StratisError};
use crate::outside::choose_indices;
use crate::units::{Bytes, Sectors};

verus! {

/// How many devices the metadata is written to at most.
pub const MAX_NUM_TO_WRITE: usize = 10;

/// The time stamped on metadata written at `now`, in nanoseconds since the
/// epoch: `now`, or just after the last write when the clock has not moved
/// past it.
pub open spec fn stamp_of(now: i128, last: Option<i128>) -> int {
    match last {
        Some(l) => if now <= l {
            l + 1
        } else {
            now as int
        },
        None => now as int,
    }
}

/// The time to stamp on metadata written at `now`.
pub fn stamp_time(now: i128, last: Option<i128>) -> (r: i128)
    requires
        last matches Some(l) ==> l < i128::MAX,
    ensures
        r == stamp_of(now, last),
{
    match last {
        Some(l) => if now <= l {
            l + 1
        } else {
            now
        },
        None => now,
    }
}

/// Each stamp is later than the last one: the metadata written last is
/// always the newest.
pub proof fn law_stamps_increase(now: i128, last: Option<i128>)
    ensures
        last matches Some(l) ==> stamp_of(now, last) > l,
        stamp_of(now, last) >= now,
{
}

/// Device `i` can hold `data_size` bytes of metadata.
pub open spec fn can_hold(max_sizes: Seq<Sectors>, i: int, data_size: Bytes) -> bool {
    max_sizes[i].0 * 512 >= data_size.0
}

/// The devices, by index and in order, whose metadata area can hold
/// `data_size` bytes.
pub open spec fn candidates_of(max_sizes: Seq<Sectors>, data_size: Bytes) -> Seq<usize>
    decreases max_sizes.len(),
{
    if max_sizes.len() == 0 {
        Seq::empty()
    } else {
        let rest = candidates_of(max_sizes.drop_last(), data_size);
        if can_hold(max_sizes, max_sizes.len() - 1, data_size) {
            rest.push((max_sizes.len() - 1) as usize)
        } else {
            rest
        }
    }
}

proof fn lemma_candidates_bounds(max_sizes: Seq<Sectors>, data_size: Bytes)
    requires
        max_sizes.len() <= usize::MAX,
    ensures
        forall|k: int| 0 <= k < candidates_of(max_sizes, data_size).len() ==> candidates_of(max_sizes, data_size)[k]
            < max_sizes.len(),
        forall|a: int, b: int| 0 <= a < b < candidates_of(max_sizes, data_size).len() ==> candidates_of(max_sizes, data_size)[a]
            < candidates_of(max_sizes, data_size)[b],
        candidates_of(max_sizes, data_size).len() <= max_sizes.len(),
    decreases max_sizes.len(),
{
    if max_sizes.len() > 0 {
        lemma_candidates_bounds(max_sizes.drop_last(), data_size);
    }
}

proof fn lemma_candidates_hold(max_sizes: Seq<Sectors>, data_size: Bytes, k: int)
    requires
        0 <= k < candidates_of(max_sizes, data_size).len(),
        max_sizes.len() <= usize::MAX,
    ensures
        can_hold(max_sizes, candidates_of(max_sizes, data_size)[k] as int, data_size),
    decreases max_sizes.len(),
{
    let rest = candidates_of(max_sizes.drop_last(), data_size);
    if k < rest.len() {
        lemma_candidates_hold(max_sizes.drop_last(), data_size, k);
        lemma_candidates_bounds(max_sizes.drop_last(), data_size);
        assert(max_sizes.drop_last()[rest[k] as int] == max_sizes[rest[k] as int]);
    }
}

/// The devices, by index and in order, whose metadata area can hold
/// `data_size` bytes.
pub fn write_candidates(max_sizes: &Vec<Sectors>, data_size: Bytes) -> (r: Vec<usize>)
    ensures
        r@ == candidates_of(max_sizes@, data_size),
{
    let mut r: Vec<usize> = Vec::new();
    let mut i: usize = 0;
    proof {
        assert(max_sizes@.take(0) =~= Seq::<Sectors>::empty());
    }
    while i < max_sizes.len()
        invariant
            i <= max_sizes@.len(),
            r@ == candidates_of(max_sizes@.take(i as int), data_size),
        decreases max_sizes@.len() - i,
    {
        proof {
            let t = max_sizes@.take(i as int + 1);
            assert(t.drop_last() =~= max_sizes@.take(i as int));
            assert(t[i as int] == max_sizes@[i as int]);
        }
        if max_sizes[i].0 as u128 * 512 >= data_size.0 {
            r.push(i);
        }
        i = i + 1;
    }
    proof {
        assert(max_sizes@.take(max_sizes@.len() as int) =~= max_sizes@);
    }
    r
}

/// The devices to write the metadata to: up to `MAX_NUM_TO_WRITE` of those
/// that can hold it, chosen at random, each once; all of them when there
/// are no more.
pub fn choose_targets(max_sizes: &Vec<Sectors>, data_size: Bytes) -> (r: Vec<usize>)
    ensures
        r@.len() == if candidates_of(max_sizes@, data_size).len() < MAX_NUM_TO_WRITE {
            candidates_of(max_sizes@, data_size).len()
        } else {
            MAX_NUM_TO_WRITE as nat
        },
        forall|k: int| 0 <= k < r@.len() ==> candidates_of(max_sizes@, data_size).contains(#[trigger] r@[k]),
        forall|k: int| 0 <= k < r@.len() ==> (#[trigger] r@[k]) < max_sizes@.len() && can_hold(max_sizes@, r@[k] as int, data_size),
        forall|a: int, b: int| 0 <= a < r@.len() && 0 <= b < r@.len() && a != b ==> r@[a] != r@[b],
{
    let n = max_sizes.len();
    let candidates = write_candidates(max_sizes, data_size);
    proof {
        lemma_candidates_bounds(max_sizes@, data_size);
    }
    let chosen = choose_indices(candidates.len(), MAX_NUM_TO_WRITE);
    let mut r: Vec<usize> = Vec::new();
    let mut k: usize = 0;
    while k < chosen.len()
        invariant
            k <= chosen@.len(),
            r@.len() == k,
            candidates@ == candidates_of(max_sizes@, data_size),
            n == max_sizes@.len(),
            forall|j: int| 0 <= j < chosen@.len() ==> chosen@[j] < candidates@.len(),
            forall|j: int| 0 <= j < k ==> r@[j] == candidates@[chosen@[j] as int],
        decreases chosen@.len() - k,
    {
        r.push(candidates[chosen[k]]);
        k = k + 1;
    }
    proof {
        assert forall|k: int| 0 <= k < r@.len() implies candidates_of(max_sizes@, data_size).contains(#[trigger] r@[k]) by {
            assert(candidates@[chosen@[k] as int] == r@[k]);
        }
        assert forall|k: int| 0 <= k < r@.len() implies (#[trigger] r@[k]) < max_sizes@.len() && can_hold(max_sizes@, r@[k] as int, data_size) by {
            lemma_candidates_hold(max_sizes@, data_size, chosen@[k] as int);
        }
        assert forall|a: int, b: int| 0 <= a < r@.len() && 0 <= b < r@.len() && a != b implies r@[a] != r@[b] by {
            let x = chosen@[a] as int;
            let y = chosen@[b] as int;
            if x < y {
                assert(candidates@[x] < candidates@[y]);
            } else {
                assert(candidates@[y] < candidates@[x]);
            }
        }
    }
    r
}

/// Some write of the round succeeded.
pub open spec fn any_written(written: Seq<bool>) -> bool {
    exists|i: int| 0 <= i < written.len() && written[i]
}

/// What a round of metadata writes stamped `stamp` comes to, given whether
/// each write to a chosen device succeeded: the result, and the time of the
/// last update after it. The round succeeds when some write did, and the
/// stamp then becomes the time of the last update; otherwise it is refused
/// and the time of the last update stays.
pub open spec fn save_result(stamp: i128, last: Option<i128>, written: Seq<bool>) -> (Result<(), StratisError>, Option<i128>) {
    if any_written(written) {
        (Ok(()), Some(stamp))
    } else {
        (Err(StratisError::Msg(ErrorReason::MetadataNotSaved)), last)
    }
}

/// Take in whether each write of a round stamped `stamp` succeeded, and
/// record the time of the last update accordingly.
pub fn finish_save(last_update_time: &mut Option<i128>, stamp: i128, written: &Vec<bool>) -> (r: Result<(), StratisError>)
    ensures
        (r, *final(last_update_time)) == save_result(stamp, *old(last_update_time), written@),
{
    let mut saved = false;
    let mut i: usize = 0;
    while i < written.len()
        invariant
            i <= written@.len(),
            saved == exists|j: int| 0 <= j < i && written@[j],
        decreases written@.len() - i,
    {
        saved = saved || written[i];
        i = i + 1;
    }
    if saved {
        *last_update_time = Some(stamp);
        Ok(())
    } else {
        Err(StratisError::Msg(ErrorReason::MetadataNotSaved))
    }
}

/// Saving pool-level metadata: the round is stamped with `stamp_of(now,
/// last)`, which is at least `now` and later than the last update; it
/// succeeds exactly when a write to one of the chosen devices (at most
/// `MAX_NUM_TO_WRITE` of those that can hold the metadata, see
/// `choose_targets`) succeeded, and the time of the last update then
/// becomes the stamp, so it strictly increases; a refused round leaves the
/// time of the last update as it was.
pub proof fn law_save_state(now: i128, last: Option<i128>, written: Seq<bool>)
    requires
        last matches Some(l) ==> l < i128::MAX,
    ensures
        ({
            let stamp = stamp_of(now, last) as i128;
            let (r, new_last) = save_result(stamp, last, written);
            &&& stamp >= now
            &&& (r is Ok <==> exists|i: int| 0 <= i < written.len() && written[i])
            &&& r is Ok ==> new_last == Some(stamp) && (last matches Some(l) ==> stamp > l)
            &&& r is Err ==> r == Err::<(), StratisError>(StratisError::Msg(ErrorReason::MetadataNotSaved))
                && new_last == last
        }),
{
}

} // verus!
