use vstd::prelude::*;
use crate::assoc::{
    assoc_map, keys_unique, lemma_assoc_dom, lemma_assoc_finite, lemma_assoc_index, lemma_assoc_push,
    lemma_assoc_remove, lemma_assoc_update,
};
use crate::errors::StratisError;

verus! {

/// Description of a key in the kernel keyring.
#[derive(Debug, PartialEq, Eq)]
pub struct KeyDescription(pub String);

impl View for KeyDescription {
    type V = Seq<char>;

    open spec fn view(&self) -> Seq<char> {
        self.0@
    }
}

impl KeyDescription {
    /// An exact copy.
    pub fn duplicate(&self) -> (r: KeyDescription)
        ensures
            r@ == self@,
    {
        KeyDescription(self.0.clone())
    }

    /// Whether the two descriptions are the same text.
    pub fn same_as(&self, other: &KeyDescription) -> (r: bool)
        ensures
            r == (self@ == other@),
    {
        self.0.eq(&other.0)
    }
}

/// What a bound token slot unlocks with: a key in the keyring, or a Clevis
/// pin with its JSON configuration text.
#[derive(Debug, PartialEq, Eq)]
pub enum UnlockMechanism {
    KeyDesc(KeyDescription),
    ClevisInfo(String, String),
}

/// Mathematical value of an unlock mechanism.
pub enum MechanismView {
    KeyDesc(Seq<char>),
    ClevisInfo(Seq<char>, Seq<char>),
}

impl View for UnlockMechanism {
    type V = MechanismView;

    open spec fn view(&self) -> MechanismView {
        match self {
            UnlockMechanism::KeyDesc(kd) => MechanismView::KeyDesc(kd@),
            UnlockMechanism::ClevisInfo(pin, config) => MechanismView::ClevisInfo(pin@, config@),
        }
    }
}

impl UnlockMechanism {
    /// An exact copy.
    pub fn duplicate(&self) -> (r: UnlockMechanism)
        ensures
            r@ == self@,
    {
        match self {
            UnlockMechanism::KeyDesc(kd) => UnlockMechanism::KeyDesc(kd.duplicate()),
            UnlockMechanism::ClevisInfo(pin, config) => UnlockMechanism::ClevisInfo(
                pin.clone(),
                config.clone(),
            ),
        }
    }

    /// Whether the two mechanisms are the same.
    pub fn same_as(&self, other: &UnlockMechanism) -> (r: bool)
        ensures
            r == (self@ == other@),
    {
        match (self, other) {
            (UnlockMechanism::KeyDesc(a), UnlockMechanism::KeyDesc(b)) => a.same_as(b),
            (UnlockMechanism::ClevisInfo(p1, c1), UnlockMechanism::ClevisInfo(p2, c2)) => {
                p1.eq(p2) && c1.eq(c2)
            },
            _ => false,
        }
    }

    pub fn is_key_desc(&self) -> (r: bool)
        ensures
            r == (self@ is KeyDesc),
    {
        match self {
            UnlockMechanism::KeyDesc(_) => true,
            _ => false,
        }
    }
}

/// The unlock mechanisms bound to the token slots of an encrypted device.
#[derive(Debug, PartialEq, Eq)]
pub struct EncryptionInfo {
    infos: Vec<(u32, UnlockMechanism)>,
}

/// Whether slot `s` holds a key description in `m`.
pub open spec fn is_key_slot(m: Map<u32, MechanismView>, s: u32) -> bool {
    m.dom().contains(s) && m[s] is KeyDesc
}

/// Whether slot `s` holds Clevis information in `m`.
pub open spec fn is_clevis_slot(m: Map<u32, MechanismView>, s: u32) -> bool {
    m.dom().contains(s) && m[s] is ClevisInfo
}

/// `s` is the only slot of `m` that holds a key description.
pub open spec fn only_key_slot(m: Map<u32, MechanismView>, s: u32) -> bool {
    is_key_slot(m, s) && forall|t: u32| is_key_slot(m, t) ==> t == s
}

/// `s` is the only slot of `m` that holds Clevis information.
pub open spec fn only_clevis_slot(m: Map<u32, MechanismView>, s: u32) -> bool {
    is_clevis_slot(m, s) && forall|t: u32| is_clevis_slot(m, t) ==> t == s
}

/// `s` is the least slot number that `m` does not bind.
pub open spec fn least_free_slot(m: Map<u32, MechanismView>, s: u32) -> bool {
    !m.dom().contains(s) && forall|t: u32| t < s ==> m.dom().contains(t)
}

impl EncryptionInfo {
    /// The list of slots with their mechanisms, in storage order.
    pub closed spec fn pairs(&self) -> Seq<(u32, MechanismView)> {
        Seq::new(self.infos@.len(), |i: int| (self.infos@[i].0, self.infos@[i].1@))
    }

    #[verifier::type_invariant]
    closed spec fn wf(&self) -> bool {
        keys_unique(self.pairs())
    }

    /// The binding of each bound slot.
    pub closed spec fn slots(&self) -> Map<u32, MechanismView> {
        assoc_map(self.pairs())
    }

    proof fn lemma_slots_finite(&self)
        requires
            self.wf(),
        ensures
            self.slots().dom().finite(),
            self.slots().dom().len() == self.infos@.len(),
    {
        lemma_assoc_finite(self.pairs());
        lemma_assoc_dom_len(self.pairs());
    }

    pub fn new() -> (r: EncryptionInfo)
        ensures
            r.slots() == Map::<u32, MechanismView>::empty(),
    {
        let r = EncryptionInfo { infos: Vec::new() };
        assert(r.pairs() =~= Seq::<(u32, MechanismView)>::empty());
        r
    }

    /// Whether no slot is bound.
    pub fn is_empty(&self) -> (r: bool)
        ensures
            r == (self.slots().dom().len() == 0),
    {
        proof {
            use_type_invariant(self);
            self.lemma_slots_finite();
        }
        self.infos.len() == 0
    }

    /// The number of bound slots.
    pub fn num_slots(&self) -> (r: usize)
        ensures
            r == self.slots().dom().len(),
            self.slots().dom().finite(),
    {
        proof {
            use_type_invariant(self);
            self.lemma_slots_finite();
        }
        self.infos.len()
    }

    fn find(&self, slot: u32) -> (r: Option<usize>)
        ensures
            match r {
                Some(i) => i < self.infos@.len() && self.infos@[i as int].0 == slot
                    && self.slots().dom().contains(slot)
                    && self.slots()[slot] == self.infos@[i as int].1@,
                None => !self.slots().dom().contains(slot),
            },
    {
        proof {
            use_type_invariant(self);
        }
        let mut i: usize = 0;
        while i < self.infos.len()
            invariant
                i <= self.infos@.len(),
                keys_unique(self.pairs()),
                forall|j: int| 0 <= j < i ==> self.infos@[j].0 != slot,
            decreases self.infos@.len() - i,
        {
            if self.infos[i].0 == slot {
                proof {
                    assert(self.pairs()[i as int].0 == slot);
                    lemma_assoc_index(self.pairs(), i as int);
                }
                return Some(i);
            }
            i = i + 1;
        }
        proof {
            lemma_assoc_dom(self.pairs(), slot);
            if self.slots().dom().contains(slot) {
                let j = choose|j: int| 0 <= j < self.pairs().len() && self.pairs()[j].0 == slot;
                assert(self.infos@[j].0 == slot);
            }
        }
        None
    }

    /// The mechanism bound to `slot`, if any.
    pub fn get_info(&self, slot: u32) -> (r: Option<&UnlockMechanism>)
        ensures
            r is Some == self.slots().dom().contains(slot),
            r matches Some(m) ==> m@ == self.slots()[slot],
    {
        match self.find(slot) {
            Some(i) => Some(&self.infos[i].1),
            None => None,
        }
    }

    /// Bind `slot` to `mech`; refused if the slot is already bound.
    pub fn add_info(&mut self, slot: u32, mech: UnlockMechanism) -> (r: Result<(), StratisError>)
        ensures
            match r {
                Ok(()) => !old(self).slots().dom().contains(slot)
                    && final(self).slots() == old(self).slots().insert(slot, mech@),
                Err(e) => old(self).slots().dom().contains(slot)
                    && e == StratisError::TokenSlotOccupied(slot)
                    && final(self).slots() == old(self).slots(),
            },
    {
        proof {
            use_type_invariant(&*self);
        }
        match self.find(slot) {
            Some(_) => Err(StratisError::TokenSlotOccupied(slot)),
            None => {
                let ghost old_pairs = self.pairs();
                proof {
                    lemma_assoc_push(old_pairs, slot, mech@);
                }
                let ghost mv = mech@;
                let mut infos: Vec<(u32, UnlockMechanism)> = Vec::new();
                std::mem::swap(&mut infos, &mut self.infos);
                infos.push((slot, mech));
                let ghost np = Seq::new(infos@.len(), |i: int| (infos@[i].0, infos@[i].1@));
                assert(np =~= old_pairs.push((slot, mv)));
                self.infos = infos;
                assert(self.pairs() =~= np);
                Ok(())
            },
        }
    }

    /// Rebind an already bound `slot` to `mech`; refused if it is unbound.
    pub fn set_info(&mut self, slot: u32, mech: UnlockMechanism) -> (r: Result<(), StratisError>)
        ensures
            match r {
                Ok(()) => old(self).slots().dom().contains(slot)
                    && final(self).slots() == old(self).slots().insert(slot, mech@),
                Err(e) => !old(self).slots().dom().contains(slot)
                    && e == StratisError::TokenSlotEmpty(slot)
                    && final(self).slots() == old(self).slots(),
            },
    {
        proof {
            use_type_invariant(&*self);
        }
        match self.find(slot) {
            None => Err(StratisError::TokenSlotEmpty(slot)),
            Some(i) => {
                let ghost old_pairs = self.pairs();
                let ghost mv = mech@;
                proof {
                    lemma_assoc_update(old_pairs, i as int, mv);
                }
                let mut infos: Vec<(u32, UnlockMechanism)> = Vec::new();
                std::mem::swap(&mut infos, &mut self.infos);
                infos.set(i, (slot, mech));
                let ghost np = Seq::new(infos@.len(), |k: int| (infos@[k].0, infos@[k].1@));
                assert(np =~= old_pairs.update(i as int, (slot, mv)));
                self.infos = infos;
                assert(self.pairs() =~= np);
                Ok(())
            },
        }
    }

    /// Unbind `slot`; returns whether it was bound.
    pub fn remove(&mut self, slot: u32) -> (r: bool)
        ensures
            r == old(self).slots().dom().contains(slot),
            final(self).slots() == old(self).slots().remove(slot),
    {
        proof {
            use_type_invariant(&*self);
        }
        match self.find(slot) {
            None => {
                assert(self.slots() =~= self.slots().remove(slot));
                false
            },
            Some(i) => {
                let ghost old_pairs = self.pairs();
                proof {
                    lemma_assoc_remove(old_pairs, i as int);
                }
                let mut infos: Vec<(u32, UnlockMechanism)> = Vec::new();
                std::mem::swap(&mut infos, &mut self.infos);
                infos.remove(i);
                let ghost np = Seq::new(infos@.len(), |k: int| (infos@[k].0, infos@[k].1@));
                assert(np =~= old_pairs.remove(i as int));
                self.infos = infos;
                assert(self.pairs() =~= np);
                true
            },
        }
    }

    /// The least slot number that is not bound.
    pub fn free_token_slot(&self) -> (r: u32)
        requires
            self.slots().dom().len() < u32::MAX,
        ensures
            least_free_slot(self.slots(), r),
    {
        proof {
            use_type_invariant(self);
            self.lemma_slots_finite();
        }
        let n = self.infos.len();
        let mut c: u32 = 0;
        while c as usize <= n
            invariant
                n == self.infos@.len(),
                n < u32::MAX,
                c <= n + 1,
                self.slots().dom().finite(),
                self.slots().dom().len() == n,
                forall|t: u32| t < c ==> self.slots().dom().contains(t),
            decreases n + 1 - c,
        {
            match self.find(c) {
                None => {
                    return c;
                },
                Some(_) => {},
            }
            c = c + 1;
        }
        proof {
            // All of 0..=n are bound, yet only n slots are bound.
            let range = Set::new(|t: u32| t <= n);
            assert(range.subset_of(self.slots().dom()));
            vstd::set_lib::lemma_len_subset(range, self.slots().dom());
            lemma_u32_range_len(n as u32);
            assert(false);
        }
        0
    }

    /// Whether some slot is bound to the key description `kd`.
    pub fn has_key_description(&self, kd: &KeyDescription) -> (r: bool)
        ensures
            r == exists|s: u32| #[trigger] self.slots().dom().contains(s)
                && self.slots()[s] == MechanismView::KeyDesc(kd@),
    {
        proof {
            use_type_invariant(self);
        }
        let mut i: usize = 0;
        while i < self.infos.len()
            invariant
                i <= self.infos@.len(),
                keys_unique(self.pairs()),
                forall|j: int| 0 <= j < i ==> self.infos@[j].1@ != MechanismView::KeyDesc(kd@),
            decreases self.infos@.len() - i,
        {
            match &self.infos[i].1 {
                UnlockMechanism::KeyDesc(k) => {
                    if k.same_as(kd) {
                        proof {
                            lemma_assoc_index(self.pairs(), i as int);
                            assert(self.slots().dom().contains(self.infos@[i as int].0));
                        }
                        return true;
                    }
                },
                _ => {},
            }
            i = i + 1;
        }
        proof {
            assert forall|s: u32| #[trigger] self.slots().dom().contains(s) implies self.slots()[s]
                != MechanismView::KeyDesc(kd@) by {
                lemma_assoc_dom(self.pairs(), s);
                let j = choose|j: int| 0 <= j < self.pairs().len() && self.pairs()[j].0 == s;
                lemma_assoc_index(self.pairs(), j);
            }
        }
        false
    }

    /// The slot bound to a key description, when exactly one slot is.
    pub fn single_key_description(&self) -> (r: Option<(u32, KeyDescription)>)
        ensures
            match r {
                Some((s, kd)) => only_key_slot(self.slots(), s)
                    && self.slots()[s] == MechanismView::KeyDesc(kd@),
                None => !exists|s: u32| only_key_slot(self.slots(), s),
            },
    {
        match self.single_of_kind(true) {
            Some(i) => {
                match &self.infos[i].1 {
                    UnlockMechanism::KeyDesc(kd) => Some((self.infos[i].0, kd.duplicate())),
                    _ => {
                        proof {
                            assert(false);
                        }
                        None
                    },
                }
            },
            None => None,
        }
    }

    /// The slot bound to Clevis information, when exactly one slot is.
    pub fn single_clevis_info(&self) -> (r: Option<(u32, String, String)>)
        ensures
            match r {
                Some((s, pin, config)) => only_clevis_slot(self.slots(), s)
                    && self.slots()[s] == MechanismView::ClevisInfo(pin@, config@),
                None => !exists|s: u32| only_clevis_slot(self.slots(), s),
            },
    {
        match self.single_of_kind(false) {
            Some(i) => {
                match &self.infos[i].1 {
                    UnlockMechanism::ClevisInfo(pin, config) => Some(
                        (self.infos[i].0, pin.clone(), config.clone()),
                    ),
                    _ => {
                        proof {
                            assert(false);
                        }
                        None
                    },
                }
            },
            None => None,
        }
    }

    /// Index of the only entry of the given kind (key description when
    /// `keys`, Clevis otherwise), if there is exactly one.
    fn single_of_kind(&self, keys: bool) -> (r: Option<usize>)
        ensures
            match r {
                Some(i) => i < self.infos@.len() && (self.infos@[i as int].1@ is KeyDesc) == keys
                    && (if keys {
                    only_key_slot(self.slots(), self.infos@[i as int].0)
                } else {
                    only_clevis_slot(self.slots(), self.infos@[i as int].0)
                }) && self.slots()[self.infos@[i as int].0] == self.infos@[i as int].1@,
                None => if keys {
                    !exists|s: u32| only_key_slot(self.slots(), s)
                } else {
                    !exists|s: u32| only_clevis_slot(self.slots(), s)
                },
            },
    {
        proof {
            use_type_invariant(self);
        }
        let mut found: Option<usize> = None;
        let mut count: usize = 0;
        let mut i: usize = 0;
        while i < self.infos.len()
            invariant
                i <= self.infos@.len(),
                keys_unique(self.pairs()),
                count <= i,
                count == 0 <==> found is None,
                found matches Some(f) ==> (f < i && (self.infos@[f as int].1@ is KeyDesc) == keys),
                count == 1 ==> (found matches Some(f) && forall|j: int|
                    0 <= j < i && (self.infos@[j].1@ is KeyDesc) == keys ==> j == f),
                count >= 2 ==> exists|a: int, b: int|
                    0 <= a < b < i && (self.infos@[a].1@ is KeyDesc) == keys
                        && (self.infos@[b].1@ is KeyDesc) == keys,
                count == 0 ==> forall|j: int| 0 <= j < i ==> (self.infos@[j].1@ is KeyDesc) != keys,
            decreases self.infos@.len() - i,
        {
            if self.infos[i].1.is_key_desc() == keys {
                if count == 0 {
                    found = Some(i);
                    count = 1;
                } else {
                    if count == 1 {
                        proof {
                            let f = found.unwrap();
                            assert(0 <= f < i && (self.infos@[f as int].1@ is KeyDesc) == keys);
                        }
                    }
                    count = 2;
                }
            }
            i = i + 1;
        }
        let ghost p = self.pairs();
        if count == 1 {
            let f = found.unwrap();
            proof {
                lemma_assoc_index(p, f as int);
                let s = self.infos@[f as int].0;
                assert forall|t: u32| (if keys {
                    is_key_slot(self.slots(), t)
                } else {
                    is_clevis_slot(self.slots(), t)
                }) implies t == s by {
                    lemma_assoc_dom(p, t);
                    let j = choose|j: int| 0 <= j < p.len() && p[j].0 == t;
                    lemma_assoc_index(p, j);
                }
            }
            Some(f)
        } else {
            proof {
                if count == 0 {
                    assert forall|s: u32| !(if keys {
                        is_key_slot(self.slots(), s)
                    } else {
                        is_clevis_slot(self.slots(), s)
                    }) by {
                        lemma_assoc_dom(p, s);
                        if self.slots().dom().contains(s) {
                            let j = choose|j: int| 0 <= j < p.len() && p[j].0 == s;
                            lemma_assoc_index(p, j);
                        }
                    }
                } else {
                    let (a, b) = choose|a: int, b: int|
                        0 <= a < b < self.infos@.len() && (self.infos@[a].1@ is KeyDesc) == keys
                            && (self.infos@[b].1@ is KeyDesc) == keys;
                    lemma_assoc_index(p, a);
                    lemma_assoc_index(p, b);
                    assert(p[a].0 != p[b].0);
                    assert forall|s: u32| !(if keys {
                        only_key_slot(self.slots(), s)
                    } else {
                        only_clevis_slot(self.slots(), s)
                    }) by {
                        if keys {
                            if only_key_slot(self.slots(), s) {
                                assert(is_key_slot(self.slots(), p[a].0));
                                assert(is_key_slot(self.slots(), p[b].0));
                            }
                        } else {
                            if only_clevis_slot(self.slots(), s) {
                                assert(is_clevis_slot(self.slots(), p[a].0));
                                assert(is_clevis_slot(self.slots(), p[b].0));
                            }
                        }
                    }
                }
            }
            None
        }
    }

    /// An exact copy.
    pub fn duplicate(&self) -> (r: EncryptionInfo)
        ensures
            r.slots() == self.slots(),
    {
        proof {
            use_type_invariant(self);
        }
        let mut infos: Vec<(u32, UnlockMechanism)> = Vec::new();
        let mut i: usize = 0;
        while i < self.infos.len()
            invariant
                i <= self.infos@.len(),
                keys_unique(self.pairs()),
                infos@.len() == i,
                forall|j: int| 0 <= j < i ==> infos@[j].0 == self.infos@[j].0
                    && infos@[j].1@ == self.infos@[j].1@,
            decreases self.infos@.len() - i,
        {
            infos.push((self.infos[i].0, self.infos[i].1.duplicate()));
            i = i + 1;
        }
        assert(Seq::new(infos@.len(), |k: int| (infos@[k].0, infos@[k].1@)) =~= self.pairs());
        let r = EncryptionInfo { infos };
        r
    }

    /// Whether both bind the same slots to the same mechanisms.
    pub fn same_as(&self, other: &EncryptionInfo) -> (r: bool)
        ensures
            r == (self.slots() == other.slots()),
    {
        proof {
            use_type_invariant(self);
            use_type_invariant(other);
            self.lemma_slots_finite();
            other.lemma_slots_finite();
        }
        if self.infos.len() != other.infos.len() {
            return false;
        }
        let mut i: usize = 0;
        while i < self.infos.len()
            invariant
                i <= self.infos@.len(),
                self.infos@.len() == other.infos@.len(),
                keys_unique(self.pairs()),
                forall|j: int| 0 <= j < i ==> #[trigger] other.slots().dom().contains(self.pairs()[j].0)
                    && other.slots()[self.pairs()[j].0] == self.pairs()[j].1,
            decreases self.infos@.len() - i,
        {
            match other.find(self.infos[i].0) {
                None => {
                    proof {
                        lemma_assoc_index(self.pairs(), i as int);
                    }
                    return false;
                },
                Some(k) => {
                    if !other.infos[k].1.same_as(&self.infos[i].1) {
                        proof {
                            lemma_assoc_index(self.pairs(), i as int);
                        }
                        return false;
                    }
                },
            }
            i = i + 1;
        }
        proof {
            // Every slot of self is in other with the same value; equal sizes
            // make the domains equal.
            let p = self.pairs();
            assert forall|s: u32| #[trigger] self.slots().dom().contains(s) implies other.slots().dom().contains(s)
                && other.slots()[s] == self.slots()[s] by {
                lemma_assoc_dom(p, s);
                let j = choose|j: int| 0 <= j < p.len() && p[j].0 == s;
                lemma_assoc_index(p, j);
            }
            assert(self.slots().dom().subset_of(other.slots().dom()));
            vstd::set_lib::lemma_subset_equality(self.slots().dom(), other.slots().dom());
            assert(self.slots() =~= other.slots());
        }
        true
    }
}

/// The number of keys of a list with distinct keys is its length.
pub proof fn lemma_assoc_dom_len<K, V>(s: Seq<(K, V)>)
    requires
        keys_unique(s),
    ensures
        assoc_map(s).dom().len() == s.len(),
    decreases s.len(),
{
    lemma_assoc_finite(s);
    if s.len() > 0 {
        let t = s.drop_last();
        assert(keys_unique(t));
        lemma_assoc_dom_len(t);
        lemma_assoc_dom(t, s.last().0);
        if assoc_map(t).dom().contains(s.last().0) {
            let j = choose|j: int| 0 <= j < t.len() && t[j].0 == s.last().0;
            assert(s[j].0 == s[s.len() - 1].0);
        }
        lemma_assoc_finite(t);
    }
}

/// The set of `u32` values up to `n` has `n + 1` elements.
pub proof fn lemma_u32_range_len(n: u32)
    ensures
        Set::new(|t: u32| t <= n).finite(),
        Set::new(|t: u32| t <= n).len() == n + 1,
    decreases n,
{
    if n == 0 {
        assert(Set::new(|t: u32| t <= 0) =~= Set::empty().insert(0u32));
    } else {
        lemma_u32_range_len((n - 1) as u32);
        assert(Set::new(|t: u32| t <= n) =~= Set::new(|t: u32| t <= (n - 1) as u32).insert(n));
    }
}


/// Encryption information summarised over all the devices of a pool: the
/// common information when every device has the same, or a mark that they
/// differ.
#[derive(Debug, PartialEq, Eq)]
pub enum PoolEncryptionInfo {
    Consistent(EncryptionInfo),
    Inconsistent,
}

impl PoolEncryptionInfo {
    /// `self` summarises the informations in `infos`.
    pub open spec fn is_summary_of(&self, infos: Set<EncryptionInfo>) -> bool {
        if forall|a: EncryptionInfo, b: EncryptionInfo|
            #[trigger] infos.contains(a) && #[trigger] infos.contains(b) ==> a.slots() == b.slots() {
            self matches PoolEncryptionInfo::Consistent(e) && forall|a: EncryptionInfo|
                #[trigger] infos.contains(a) ==> a.slots() == e.slots()
        } else {
            self is Inconsistent
        }
    }

    /// Summarise the informations of a non-empty list.
    pub fn summarize(infos: &Vec<&EncryptionInfo>) -> (r: PoolEncryptionInfo)
        requires
            infos@.len() > 0,
        ensures
            r.is_summary_of(Set::new(|e: EncryptionInfo| exists|m: int| 0 <= m < infos@.len() && *infos@[m] == e)),
    {
        let ghost set = Set::new(|e: EncryptionInfo| exists|m: int| 0 <= m < infos@.len() && *infos@[m] == e);
        let first = infos[0];
        let mut i: usize = 1;
        while i < infos.len()
            invariant
                1 <= i <= infos@.len(),
                first == infos@[0],
                set == Set::new(|e: EncryptionInfo| exists|m: int| 0 <= m < infos@.len() && *infos@[m] == e),
                forall|m: int| 0 <= m < i ==> (*infos@[m]).slots() == first.slots(),
            decreases infos@.len() - i,
        {
            if !infos[i].same_as(first) {
                proof {
                    let x = *infos@[i as int];
                    let y = *infos@[0];
                    assert(exists|m: int| 0 <= m < infos@.len() && *infos@[m] == x);
                    assert(exists|m: int| 0 <= m < infos@.len() && *infos@[m] == y);
                    assert(set.contains(x));
                    assert(set.contains(y));
                    assert(x.slots() != y.slots());
                }
                return PoolEncryptionInfo::Inconsistent;
            }
            i = i + 1;
        }
        proof {
            assert forall|a: EncryptionInfo| #[trigger] set.contains(a) implies a.slots() == first.slots() by {
                let m = choose|m: int| 0 <= m < infos@.len() && *infos@[m] == a;
            }
        }
        PoolEncryptionInfo::Consistent(first.duplicate())
    }
}


/// The least slot number that `m` does not bind.
pub open spec fn least_free(m: Map<u32, MechanismView>) -> u32 {
    choose|s: u32| least_free_slot(m, s)
}

/// There is only one least free slot.
pub proof fn lemma_least_free_unique(m: Map<u32, MechanismView>, s: u32)
    requires
        least_free_slot(m, s),
    ensures
        least_free(m) == s,
{
    let c = least_free(m);
    assert(least_free_slot(m, c));
    if c < s {
        assert(m.dom().contains(c));
    }
    if s < c {
        assert(m.dom().contains(s));
    }
}

/// Requested unlock methods: each with an optional token slot (the least
/// free slot when absent).
pub struct InputEncryptionInfo {
    pub items: Vec<(Option<u32>, UnlockMechanism)>,
}

impl InputEncryptionInfo {
    /// The requested slots and mechanisms.
    pub open spec fn entries(&self) -> Seq<(Option<u32>, MechanismView)> {
        Seq::new(self.items@.len(), |i: int| (self.items@[i].0, self.items@[i].1@))
    }
}


/// Which token slot a bind request names: a given slot, any free slot, or
/// the single slot of its kind (the interface before slots were exposed).
#[derive(Debug, Clone, Copy, PartialEq, Eq, Structural)]
pub enum OptionalTokenSlotInput {
    Slot(u32),
    Free,
    Legacy,
}

/// How a stopped pool is to be unlocked when it is started.
#[derive(Debug, Clone, Copy, PartialEq, Eq, Structural)]
pub enum TokenUnlockMethod {
    NoMethod,
    Any,
    Token(u32),
}

impl TokenUnlockMethod {
    /// Whether some unlock method is given.
    pub fn is_some(&self) -> (r: bool)
        ensures
            r == !(*self is NoMethod),
    {
        match self {
            TokenUnlockMethod::NoMethod => false,
            _ => true,
        }
    }
}

/// The OS error number for a key that the keyring does not hold.
pub const ENOKEY: i32 = 126;

/// How reading a key from the persistent keyring went: attaching the
/// persistent keyring, asking for the key by its description, and reading
/// the key each either failed with an OS error number or went on; the
/// last gives the key's bytes.
#[derive(Debug, PartialEq, Eq)]
pub enum KeyringOutcome {
    AttachFailed(i32),
    RequestFailed(i32),
    ReadFailed(i32),
    Read(Vec<u8>),
}

/// What reading a key comes to: no key, and no error, when the keyring
/// does not hold a key of that description; an error for any other
/// failure; the key otherwise.
pub fn read_key_result(outcome: KeyringOutcome) -> (r: Result<Option<Vec<u8>>, StratisError>)
    ensures
        match outcome {
            KeyringOutcome::RequestFailed(e) => if e == ENOKEY {
                r == Ok::<Option<Vec<u8>>, StratisError>(None)
            } else {
                r == Err::<Option<Vec<u8>>, StratisError>(StratisError::Keyring(e))
            },
            KeyringOutcome::AttachFailed(e) => r == Err::<Option<Vec<u8>>, StratisError>(StratisError::Keyring(e)),
            KeyringOutcome::ReadFailed(e) => r == Err::<Option<Vec<u8>>, StratisError>(StratisError::Keyring(e)),
            KeyringOutcome::Read(k) => r == Ok::<Option<Vec<u8>>, StratisError>(Some(k)),
        },
{
    match outcome {
        KeyringOutcome::RequestFailed(e) => if e == ENOKEY {
            Ok(None)
        } else {
            Err(StratisError::Keyring(e))
        },
        KeyringOutcome::AttachFailed(e) => Err(StratisError::Keyring(e)),
        KeyringOutcome::ReadFailed(e) => Err(StratisError::Keyring(e)),
        KeyringOutcome::Read(k) => Ok(Some(k)),
    }
}

} // verus!
