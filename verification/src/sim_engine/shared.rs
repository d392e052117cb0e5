use vstd::prelude::*;
use crate::errors::StratisError;
use crate::keys::{
    least_free, least_free_slot, lemma_least_free_unique, EncryptionInfo, InputEncryptionInfo,
    MechanismView, UnlockMechanism,
};
use crate::sim_engine::keys::SimKeyActions;

verus! {

/// Why a request for unlock methods could not be turned into encryption
/// information.
pub enum ConvertFailure {
    /// A key description is not in the keyring.
    KeyMissing(Seq<char>),
    /// Two requests use the same slot.
    SlotTaken(u32),
}

/// One request applied to the encryption information built so far.
pub open spec fn convert_step(
    acc: Result<Map<u32, MechanismView>, ConvertFailure>,
    item: (Option<u32>, MechanismView),
    keys: Option<Set<Seq<char>>>,
) -> Result<Map<u32, MechanismView>, ConvertFailure> {
    match acc {
        Err(e) => Err(e),
        Ok(m) => {
            let (ts, mech) = item;
            let slot = match ts {
                Some(t) => t,
                None => least_free(m),
            };
            if mech is KeyDesc && keys is Some && !keys.unwrap().contains(mech->KeyDesc_0) {
                Err(ConvertFailure::KeyMissing(mech->KeyDesc_0))
            } else if m.dom().contains(slot) {
                Err(ConvertFailure::SlotTaken(slot))
            } else {
                Ok(m.insert(slot, mech))
            }
        },
    }
}

/// The encryption information that the requested unlock methods give,
/// taken in order; `keys` holds the descriptions in the keyring when one is
/// consulted.
#[verifier::opaque]
pub open spec fn converted(
    items: Seq<(Option<u32>, MechanismView)>,
    keys: Option<Set<Seq<char>>>,
) -> Result<Map<u32, MechanismView>, ConvertFailure>
    decreases items.len(),
{
    if items.len() == 0 {
        Ok(Map::empty())
    } else {
        convert_step(converted(items.drop_last(), keys), items.last(), keys)
    }
}

/// Unfold `converted` on a prefix one request longer.
pub proof fn lemma_converted_step(
    items: Seq<(Option<u32>, MechanismView)>,
    keys: Option<Set<Seq<char>>>,
    k: int,
)
    requires
        0 <= k < items.len(),
    ensures
        converted(items.take(k + 1), keys) == convert_step(converted(items.take(k), keys), items[k], keys),
        converted(items.take(0), keys) == Ok::<Map<u32, MechanismView>, ConvertFailure>(Map::empty()),
{
    reveal(converted);
    assert(items.take(k + 1).drop_last() =~= items.take(k));
    assert(items.take(0) =~= Seq::<(Option<u32>, MechanismView)>::empty());
}

/// Once a prefix of the requests fails, every longer prefix fails the same
/// way.
pub proof fn lemma_converted_err_sticks(
    items: Seq<(Option<u32>, MechanismView)>,
    keys: Option<Set<Seq<char>>>,
    k: int,
    k2: int,
)
    requires
        0 <= k <= k2 <= items.len(),
        converted(items.take(k), keys) is Err,
    ensures
        converted(items.take(k2), keys) == converted(items.take(k), keys),
    decreases k2 - k,
{
    if k2 > k {
        lemma_converted_err_sticks(items, keys, k, k2 - 1);
        lemma_converted_step(items, keys, k2 - 1);
    }
}

/// Whether `e` reports the failure `f`.
pub open spec fn reports(e: StratisError, f: ConvertFailure) -> bool {
    match f {
        ConvertFailure::KeyMissing(kd) => e matches StratisError::KeyNotFound(s) && s@ == kd,
        ConvertFailure::SlotTaken(t) => e == StratisError::TokenSlotOccupied(t),
    }
}

/// Turn requested unlock methods into encryption information, checking key
/// descriptions against the keyring when one is given.
pub fn convert_encryption_info(
    encryption_info: Option<&InputEncryptionInfo>,
    key_handler: Option<&SimKeyActions>,
) -> (r: Result<Option<EncryptionInfo>, StratisError>)
    requires
        encryption_info matches Some(ei) ==> ei.items@.len() < u32::MAX,
    ensures
        encryption_info is None ==> r matches Ok(None),
        encryption_info matches Some(ei) ==> match converted(
            ei.entries(),
            match key_handler {
                Some(kh) => Some(kh.key_map().dom()),
                None => None,
            },
        ) {
            Ok(m) => r matches Ok(Some(info)) && info.slots() == m,
            Err(f) => r matches Err(e) && reports(e, f),
        },
{
    let ei = match encryption_info {
        None => {
            return Ok(None);
        },
        Some(ei) => ei,
    };
    let ghost keys = match key_handler {
        Some(kh) => Some(kh.key_map().dom()),
        None => None,
    };
    let ghost items = ei.entries();
    let mut info = EncryptionInfo::new();
    let mut i: usize = 0;
    proof {
        if items.len() > 0 {
            lemma_converted_step(items, keys, 0);
        } else {
            reveal(converted);
            assert(items.take(0) =~= Seq::<(Option<u32>, MechanismView)>::empty());
        }
    }
    while i < ei.items.len()
        invariant
            i <= ei.items@.len(),
            ei.items@.len() < u32::MAX,
            items == ei.entries(),
            encryption_info == Some(ei),
            keys == match key_handler {
                Some(kh) => Some(kh.key_map().dom()),
                None => None,
            },
            converted(items.take(i as int), keys) == Ok::<Map<u32, MechanismView>, ConvertFailure>(info.slots()),
            info.slots().dom().len() <= i,
            info.slots().dom().finite(),
        decreases ei.items@.len() - i,
    {
        proof {
            lemma_converted_step(items, keys, i as int);
        }
        let (ts, mech) = (&ei.items[i].0, &ei.items[i].1);
        let slot = match ts {
            Some(t) => *t,
            None => {
                let s = info.free_token_slot();
                proof {
                    lemma_least_free_unique(info.slots(), s);
                }
                s
            },
        };
        match mech {
            UnlockMechanism::KeyDesc(kd) => {
                match key_handler {
                    Some(kh) => {
                        if !kh.contains_key(kd) {
                            proof {
                                assert(items[i as int].1 == MechanismView::KeyDesc(kd@));
                                assert(keys == Some(kh.key_map().dom()));
                                assert(convert_step(Ok(info.slots()), items[i as int], keys) == Err::<Map<u32, MechanismView>, ConvertFailure>(ConvertFailure::KeyMissing(kd@)));
                                assert(converted(items.take(i as int + 1), keys) is Err);
                                lemma_converted_err_sticks(items, keys, i as int + 1, items.len() as int);
                                assert(items.take(items.len() as int) =~= items);
                            }
                            return Err(StratisError::KeyNotFound(kd.0.clone()));
                        }
                    },
                    None => {},
                }
            },
            _ => {},
        }
        match info.add_info(slot, mech.duplicate()) {
            Ok(()) => {},
            Err(e) => {
                proof {
                    lemma_converted_err_sticks(items, keys, i as int + 1, items.len() as int);
                    assert(items.take(items.len() as int) =~= items);
                }
                return Err(e);
            },
        }
        i = i + 1;
    }
    assert(items.take(ei.items@.len() as int) =~= items);
    Ok(Some(info))
}

} // verus!
