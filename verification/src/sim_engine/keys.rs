use vstd::prelude::*;
use crate::assoc::{
    assoc_map, keys_unique, lemma_assoc_dom, lemma_assoc_index, lemma_assoc_push,
    lemma_assoc_remove, lemma_assoc_update,
};
use crate::keys::KeyDescription;
use crate::types::{Key, MappingCreateAction, MappingDeleteAction};

verus! {

/// A simulated kernel keyring: key contents by key description.
#[derive(Debug)]
pub struct SimKeyActions {
    keys: Vec<(KeyDescription, Vec<u8>)>,
}

impl SimKeyActions {
    spec fn pairs(&self) -> Seq<(Seq<char>, Seq<u8>)> {
        Seq::new(self.keys@.len(), |i: int| (self.keys@[i].0@, self.keys@[i].1@))
    }

    #[verifier::type_invariant]
    spec fn wf(&self) -> bool {
        keys_unique(self.pairs())
    }

    /// Key contents by key description.
    pub closed spec fn key_map(&self) -> Map<Seq<char>, Seq<u8>> {
        assoc_map(self.pairs())
    }

    /// An empty keyring.
    pub fn new() -> (r: SimKeyActions)
        ensures
            r.key_map() == Map::<Seq<char>, Seq<u8>>::empty(),
    {
        let r = SimKeyActions { keys: Vec::new() };
        assert(r.pairs() =~= Seq::<(Seq<char>, Seq<u8>)>::empty());
        r
    }

    fn find(&self, key_desc: &KeyDescription) -> (r: Option<usize>)
        ensures
            match r {
                Some(i) => i < self.keys@.len() && self.keys@[i as int].0@ == key_desc@
                    && self.key_map().dom().contains(key_desc@) && self.key_map()[key_desc@]
                    == self.keys@[i as int].1@,
                None => !self.key_map().dom().contains(key_desc@),
            },
    {
        proof {
            use_type_invariant(self);
        }
        let mut i: usize = 0;
        while i < self.keys.len()
            invariant
                i <= self.keys@.len(),
                keys_unique(self.pairs()),
                forall|j: int| 0 <= j < i ==> self.keys@[j].0@ != key_desc@,
            decreases self.keys@.len() - i,
        {
            if self.keys[i].0.same_as(key_desc) {
                proof {
                    lemma_assoc_index(self.pairs(), i as int);
                }
                return Some(i);
            }
            i = i + 1;
        }
        proof {
            lemma_assoc_dom(self.pairs(), key_desc@);
            if self.key_map().dom().contains(key_desc@) {
                let j = choose|j: int| 0 <= j < self.pairs().len() && self.pairs()[j].0 == key_desc@;
                assert(self.keys@[j].0@ == key_desc@);
            }
        }
        None
    }

    /// Whether a key with this description is in the keyring.
    pub fn contains_key(&self, key_desc: &KeyDescription) -> (r: bool)
        ensures
            r == self.key_map().dom().contains(key_desc@),
    {
        self.find(key_desc).is_some()
    }

    /// The contents of the key with this description, if any.
    pub fn read(&self, key_desc: &KeyDescription) -> (r: Option<&Vec<u8>>)
        ensures
            r is Some == self.key_map().dom().contains(key_desc@),
            r matches Some(v) ==> v@ == self.key_map()[key_desc@],
    {
        match self.find(key_desc) {
            Some(i) => Some(&self.keys[i].1),
            None => None,
        }
    }

    /// Set the key with this description to `key_data`.
    pub fn set(&mut self, key_desc: &KeyDescription, key_data: Vec<u8>) -> (r: MappingCreateAction<Key>)
        ensures
            final(self).key_map() == old(self).key_map().insert(key_desc@, key_data@),
            !old(self).key_map().dom().contains(key_desc@) ==> r == MappingCreateAction::Created(Key),
            old(self).key_map().dom().contains(key_desc@) && old(self).key_map()[key_desc@] == key_data@
                ==> r == MappingCreateAction::<Key>::Identity,
            old(self).key_map().dom().contains(key_desc@) && old(self).key_map()[key_desc@] != key_data@
                ==> r == MappingCreateAction::ValueChanged(Key),
    {
        proof {
            use_type_invariant(&*self);
        }
        let ghost p = self.pairs();
        let ghost kv = key_data@;
        match self.find(key_desc) {
            Some(i) => {
                if bytes_eq(&self.keys[i].1, &key_data) {
                    proof {
                        assert(self.key_map() =~= self.key_map().insert(key_desc@, key_data@));
                    }
                    MappingCreateAction::Identity
                } else {
                    proof {
                        lemma_assoc_update(p, i as int, kv);
                    }
                    let mut keys: Vec<(KeyDescription, Vec<u8>)> = Vec::new();
                    std::mem::swap(&mut keys, &mut self.keys);
                    let kd = keys[i].0.duplicate();
                    keys.set(i, (kd, key_data));
                    assert(Seq::new(keys@.len(), |k: int| (keys@[k].0@, keys@[k].1@)) =~= p.update(i as int, (p[i as int].0, kv)));
                    self.keys = keys;
                    MappingCreateAction::ValueChanged(Key)
                }
            },
            None => {
                proof {
                    lemma_assoc_push(p, key_desc@, kv);
                }
                let mut keys: Vec<(KeyDescription, Vec<u8>)> = Vec::new();
                std::mem::swap(&mut keys, &mut self.keys);
                keys.push((key_desc.duplicate(), key_data));
                assert(Seq::new(keys@.len(), |k: int| (keys@[k].0@, keys@[k].1@)) =~= p.push((key_desc@, kv)));
                self.keys = keys;
                MappingCreateAction::Created(Key)
            },
        }
    }

    /// The descriptions of all keys, each once.
    pub fn list(&self) -> (r: Vec<KeyDescription>)
        ensures
            forall|s: Seq<char>| #[trigger] self.key_map().dom().contains(s) <==> exists|i: int|
                0 <= i < r@.len() && r@[i]@ == s,
            r@.len() == self.key_map().dom().len(),
    {
        proof {
            use_type_invariant(self);
            crate::keys::lemma_assoc_dom_len(self.pairs());
        }
        let mut r: Vec<KeyDescription> = Vec::new();
        let mut i: usize = 0;
        while i < self.keys.len()
            invariant
                i <= self.keys@.len(),
                r@.len() == i,
                forall|j: int| 0 <= j < i ==> r@[j]@ == self.keys@[j].0@,
            decreases self.keys@.len() - i,
        {
            r.push(self.keys[i].0.duplicate());
            i = i + 1;
        }
        proof {
            let p = self.pairs();
            assert forall|s: Seq<char>| #[trigger] self.key_map().dom().contains(s) <==> exists|i: int|
                0 <= i < r@.len() && r@[i]@ == s by {
                lemma_assoc_dom(p, s);
                if self.key_map().dom().contains(s) {
                    let j = choose|j: int| 0 <= j < p.len() && p[j].0 == s;
                    assert(r@[j]@ == s);
                }
                if exists|i: int| 0 <= i < r@.len() && r@[i]@ == s {
                    let j = choose|j: int| 0 <= j < r@.len() && r@[j]@ == s;
                    assert(p[j].0 == s);
                }
            }
        }
        r
    }

    /// Remove the key with this description.
    pub fn unset(&mut self, key_desc: &KeyDescription) -> (r: MappingDeleteAction<Key>)
        ensures
            final(self).key_map() == old(self).key_map().remove(key_desc@),
            r == (if old(self).key_map().dom().contains(key_desc@) {
                MappingDeleteAction::Deleted(Key)
            } else {
                MappingDeleteAction::<Key>::Identity
            }),
    {
        proof {
            use_type_invariant(&*self);
        }
        let ghost p = self.pairs();
        match self.find(key_desc) {
            Some(i) => {
                proof {
                    lemma_assoc_remove(p, i as int);
                }
                let mut keys: Vec<(KeyDescription, Vec<u8>)> = Vec::new();
                std::mem::swap(&mut keys, &mut self.keys);
                keys.remove(i);
                assert(Seq::new(keys@.len(), |k: int| (keys@[k].0@, keys@[k].1@)) =~= p.remove(i as int));
                self.keys = keys;
                MappingDeleteAction::Deleted(Key)
            },
            None => {
                assert(self.key_map() =~= self.key_map().remove(key_desc@));
                MappingDeleteAction::Identity
            },
        }
    }
}

/// Whether two byte vectors hold the same bytes.
pub fn bytes_eq(a: &Vec<u8>, b: &Vec<u8>) -> (r: bool)
    ensures
        r == (a@ == b@),
{
    if a.len() != b.len() {
        return false;
    }
    let mut i: usize = 0;
    while i < a.len()
        invariant
            a@.len() == b@.len(),
            i <= a@.len(),
            forall|j: int| 0 <= j < i ==> a@[j] == b@[j],
        decreases a@.len() - i,
    {
        if a[i] != b[i] {
            return false;
        }
        i = i + 1;
    }
    assert(a@ =~= b@);
    true
}

} // verus!
