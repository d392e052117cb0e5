use vstd::prelude::*;
use crate::assoc::{
    assoc_map, keys_unique, lemma_assoc_dom, lemma_assoc_index, lemma_assoc_push,
    lemma_assoc_remove, lemma_assoc_update,
};
use crate::keys::lemma_assoc_dom_len;

verus! {

/// One named, identified item of a table.
#[derive(Debug)]
pub struct TableEntry<T> {
    pub name: String,
    pub uuid: u128,
    pub value: T,
}

/// Items addressed both by a unique name and by a unique UUID.
#[derive(Debug)]
pub struct Table<T> {
    entries: Vec<TableEntry<T>>,
}

/// Some item of `m` has name `n`.
pub open spec fn has_name<T>(m: Map<u128, (Seq<char>, T)>, n: Seq<char>) -> bool {
    exists|u: u128| #[trigger] m.dom().contains(u) && m[u].0 == n
}

/// No two items of `m` share a name.
pub open spec fn names_unique<T>(m: Map<u128, (Seq<char>, T)>) -> bool {
    forall|u1: u128, u2: u128|
        #[trigger] m.dom().contains(u1) && #[trigger] m.dom().contains(u2) && u1 != u2 ==> m[u1].0
            != m[u2].0
}

/// The UUID of the item of `m` named `n`, when there is one.
pub open spec fn uuid_of_name<T>(m: Map<u128, (Seq<char>, T)>, n: Seq<char>) -> u128 {
    choose|u: u128| #[trigger] m.dom().contains(u) && m[u].0 == n
}

impl<T> Table<T> {
    spec fn pairs(&self) -> Seq<(u128, (Seq<char>, T))> {
        pairs_of(self.entries@)
    }

    /// Each item's name and value, by UUID.
    pub closed spec fn map(&self) -> Map<u128, (Seq<char>, T)> {
        assoc_map(self.pairs())
    }

    /// The table is well formed: UUIDs and names are each unique.
    pub closed spec fn wf(&self) -> bool {
        &&& keys_unique(self.pairs())
        &&& forall|i: int, j: int|
            0 <= i < self.entries@.len() && 0 <= j < self.entries@.len() && i != j
                ==> self.entries@[i].name@ != self.entries@[j].name@
    }

    /// A well-formed table has finitely many items, with distinct names.
    pub proof fn lemma_wf(&self)
        requires
            self.wf(),
        ensures
            self.map().dom().finite(),
            names_unique(self.map()),
    {
        crate::assoc::lemma_assoc_finite(self.pairs());
        let p = self.pairs();
        assert forall|u1: u128, u2: u128|
            #[trigger] self.map().dom().contains(u1) && #[trigger] self.map().dom().contains(u2) && u1
                != u2 implies self.map()[u1].0 != self.map()[u2].0 by {
            lemma_assoc_dom(p, u1);
            lemma_assoc_dom(p, u2);
            let i = choose|i: int| 0 <= i < p.len() && p[i].0 == u1;
            let j = choose|j: int| 0 <= j < p.len() && p[j].0 == u2;
            lemma_assoc_index(p, i);
            lemma_assoc_index(p, j);
        }
    }

    pub fn new() -> (r: Table<T>)
        ensures
            r.wf(),
            r.map() == Map::<u128, (Seq<char>, T)>::empty(),
    {
        let r = Table { entries: Vec::new() };
        assert(r.pairs() =~= Seq::<(u128, (Seq<char>, T))>::empty());
        r
    }

    /// The number of items.
    pub fn len(&self) -> (r: usize)
        requires
            self.wf(),
        ensures
            r == self.map().dom().len(),
    {
        proof {
            lemma_assoc_dom_len(self.pairs());
        }
        self.entries.len()
    }

    /// Whether the table is empty.
    pub fn is_empty(&self) -> (r: bool)
        requires
            self.wf(),
        ensures
            r == (self.map().dom().len() == 0),
            r == (self.map() == Map::<u128, (Seq<char>, T)>::empty()),
    {
        proof {
            lemma_assoc_dom_len(self.pairs());
            self.lemma_wf();
            if self.map().dom().len() == 0 {
                assert(self.map().dom() =~= Set::<u128>::empty());
                assert(self.map() =~= Map::<u128, (Seq<char>, T)>::empty());
            }
        }
        self.entries.len() == 0
    }

    fn index_of_uuid(&self, u: u128) -> (r: Option<usize>)
        requires
            self.wf(),
        ensures
            match r {
                Some(i) => i < self.entries@.len() && self.entries@[i as int].uuid == u
                    && self.map().dom().contains(u) && self.map()[u] == (
                    self.entries@[i as int].name@,
                    self.entries@[i as int].value,
                ),
                None => !self.map().dom().contains(u),
            },
    {
        let mut i: usize = 0;
        while i < self.entries.len()
            invariant
                i <= self.entries@.len(),
                self.wf(),
                forall|j: int| 0 <= j < i ==> self.entries@[j].uuid != u,
            decreases self.entries@.len() - i,
        {
            if self.entries[i].uuid == u {
                proof {
                    assert(self.pairs()[i as int].0 == u);
                    lemma_assoc_index(self.pairs(), i as int);
                }
                return Some(i);
            }
            i = i + 1;
        }
        proof {
            lemma_assoc_dom(self.pairs(), u);
            if self.map().dom().contains(u) {
                let j = choose|j: int| 0 <= j < self.pairs().len() && self.pairs()[j].0 == u;
                assert(self.entries@[j].uuid == u);
            }
        }
        None
    }

    fn index_of_name(&self, n: &str) -> (r: Option<usize>)
        requires
            self.wf(),
        ensures
            match r {
                Some(i) => i < self.entries@.len() && self.entries@[i as int].name@ == n@
                    && self.map().dom().contains(self.entries@[i as int].uuid) && self.map()[self.entries@[i as int].uuid] == (
                    self.entries@[i as int].name@,
                    self.entries@[i as int].value,
                ),
                None => !has_name(self.map(), n@),
            },
    {
        let mut i: usize = 0;
        while i < self.entries.len()
            invariant
                i <= self.entries@.len(),
                self.wf(),
                forall|j: int| 0 <= j < i ==> self.entries@[j].name@ != n@,
            decreases self.entries@.len() - i,
        {
            if str_eq(self.entries[i].name.as_str(), n) {
                proof {
                    lemma_assoc_index(self.pairs(), i as int);
                }
                return Some(i);
            }
            i = i + 1;
        }
        proof {
            if has_name(self.map(), n@) {
                let u = choose|u: u128| #[trigger] self.map().dom().contains(u) && self.map()[u].0 == n@;
                lemma_assoc_dom(self.pairs(), u);
                let j = choose|j: int| 0 <= j < self.pairs().len() && self.pairs()[j].0 == u;
                lemma_assoc_index(self.pairs(), j);
            }
        }
        None
    }

    /// Whether an item has UUID `u`.
    pub fn contains_uuid(&self, u: u128) -> (r: bool)
        requires
            self.wf(),
        ensures
            r == self.map().dom().contains(u),
    {
        self.index_of_uuid(u).is_some()
    }

    /// Whether an item has name `n`.
    pub fn contains_name(&self, n: &str) -> (r: bool)
        requires
            self.wf(),
        ensures
            r == has_name(self.map(), n@),
    {
        match self.index_of_name(n) {
            Some(i) => {
                proof {
                    assert(self.map().dom().contains(self.entries@[i as int].uuid));
                }
                true
            },
            None => false,
        }
    }

    /// The name and value of the item with UUID `u`.
    pub fn get_by_uuid(&self, u: u128) -> (r: Option<(&String, &T)>)
        requires
            self.wf(),
        ensures
            r is Some == self.map().dom().contains(u),
            r matches Some((n, v)) ==> n@ == self.map()[u].0 && *v == self.map()[u].1,
    {
        match self.index_of_uuid(u) {
            Some(i) => Some((&self.entries[i].name, &self.entries[i].value)),
            None => None,
        }
    }

    /// The UUID and value of the item named `n`.
    pub fn get_by_name(&self, n: &str) -> (r: Option<(u128, &T)>)
        requires
            self.wf(),
        ensures
            r is Some == has_name(self.map(), n@),
            r matches Some((u, v)) ==> self.map().dom().contains(u) && self.map()[u].0 == n@ && *v
                == self.map()[u].1,
    {
        match self.index_of_name(n) {
            Some(i) => {
                proof {
                    assert(self.map().dom().contains(self.entries@[i as int].uuid));
                }
                Some((self.entries[i].uuid, &self.entries[i].value))
            },
            None => None,
        }
    }

    /// Mutable access to the value of the item with UUID `u`.
    pub fn get_mut_by_uuid(&mut self, u: u128) -> (r: Option<&mut T>)
        requires
            old(self).wf(),
        ensures
            final(self).wf(),
            r is Some == old(self).map().dom().contains(u),
            match r {
                Some(v) => *v == old(self).map()[u].1 && final(self).map() == old(self).map().insert(
                    u,
                    (old(self).map()[u].0, *final(v)),
                ),
                None => final(self).map() == old(self).map(),
            },
    {
        match self.index_of_uuid(u) {
            Some(i) => {
                let ghost oe = self.entries@;
                proof {
                    assert forall|es: Seq<TableEntry<T>>|
                        es.len() == oe.len() && es[i as int].name == oe[i as int].name && es[i as int].uuid
                            == u && (forall|j: int| 0 <= j < oe.len() && j != i ==> es[j] == oe[j]) implies #[trigger] assoc_map(
                        pairs_of(es),
                    ) == assoc_map(pairs_of(oe)).insert(u, (oe[i as int].name@, es[i as int].value)) by {
                        lemma_assoc_update(pairs_of(oe), i as int, (oe[i as int].name@, es[i as int].value));
                        assert(pairs_of(es) =~= pairs_of(oe).update(
                            i as int,
                            (u, (oe[i as int].name@, es[i as int].value)),
                        ));
                    }
                    assert forall|es: Seq<TableEntry<T>>|
                        es.len() == oe.len() && es[i as int].name == oe[i as int].name && es[i as int].uuid
                            == u && (forall|j: int| 0 <= j < oe.len() && j != i ==> es[j] == oe[j]) implies #[trigger] keys_unique(
                        pairs_of(es),
                    ) by {
                        lemma_assoc_update(pairs_of(oe), i as int, (oe[i as int].name@, es[i as int].value));
                        assert(pairs_of(es) =~= pairs_of(oe).update(
                            i as int,
                            (u, (oe[i as int].name@, es[i as int].value)),
                        ));
                    }
                }
                Some(&mut self.entries[i].value)
            },
            None => None,
        }
    }

    /// Add an item whose name and UUID are both new.
    pub fn insert(&mut self, name: String, uuid: u128, value: T)
        requires
            old(self).wf(),
            !old(self).map().dom().contains(uuid),
            !has_name(old(self).map(), name@),
        ensures
            final(self).wf(),
            final(self).map() == old(self).map().insert(uuid, (name@, value)),
    {
        let ghost p = self.pairs();
        let ghost nm = name@;
        proof {
            lemma_assoc_push(p, uuid, (nm, value));
        }
        let ghost oe = self.entries@;
        self.entries.push(TableEntry { name, uuid, value });
        assert(self.pairs() =~= p.push((uuid, (nm, value))));
        proof {
            assert forall|i: int, j: int|
                0 <= i < self.entries@.len() && 0 <= j < self.entries@.len() && i != j implies self.entries@[i].name@
                    != self.entries@[j].name@ by {
                if i == oe.len() || j == oe.len() {
                    let k = if i == oe.len() { j } else { i };
                    assert(self.entries@[k] == oe[k]);
                    lemma_assoc_index(p, k);
                    if oe[k].name@ == nm {
                        assert(old(self).map().dom().contains(oe[k].uuid));
                    }
                }
            }
        }
    }

    fn remove_at(&mut self, i: usize) -> (r: TableEntry<T>)
        requires
            old(self).wf(),
            i < old(self).entries@.len(),
        ensures
            final(self).wf(),
            r == old(self).entries@[i as int],
            final(self).map() == old(self).map().remove(r.uuid),
    {
        let ghost p = self.pairs();
        proof {
            lemma_assoc_remove(p, i as int);
        }
        let ghost oe = self.entries@;
        let r = self.entries.remove(i);
        assert(self.pairs() =~= p.remove(i as int));
        proof {
            assert forall|a: int, b: int|
                0 <= a < self.entries@.len() && 0 <= b < self.entries@.len() && a != b implies self.entries@[a].name@
                    != self.entries@[b].name@ by {
                let a2 = if a < i { a } else { a + 1 };
                let b2 = if b < i { b } else { b + 1 };
                assert(self.entries@[a] == oe[a2]);
                assert(self.entries@[b] == oe[b2]);
            }
        }
        r
    }

    /// Remove the item with UUID `u`, returning its name and value.
    pub fn remove_by_uuid(&mut self, u: u128) -> (r: Option<(String, T)>)
        requires
            old(self).wf(),
        ensures
            final(self).wf(),
            r is Some == old(self).map().dom().contains(u),
            r matches Some((n, v)) ==> n@ == old(self).map()[u].0 && v == old(self).map()[u].1,
            final(self).map() == old(self).map().remove(u),
    {
        match self.index_of_uuid(u) {
            Some(i) => {
                let e = self.remove_at(i);
                Some((e.name, e.value))
            },
            None => {
                assert(self.map() =~= self.map().remove(u));
                None
            },
        }
    }

    /// Remove the item named `n`, returning its UUID and value.
    pub fn remove_by_name(&mut self, n: &str) -> (r: Option<(u128, T)>)
        requires
            old(self).wf(),
        ensures
            final(self).wf(),
            r is Some == has_name(old(self).map(), n@),
            r matches Some((u, v)) ==> old(self).map().dom().contains(u) && old(self).map()[u].0
                == n@ && v == old(self).map()[u].1 && final(self).map() == old(self).map().remove(
                u,
            ),
            r is None ==> final(self).map() == old(self).map(),
    {
        match self.index_of_name(n) {
            Some(i) => {
                let e = self.remove_at(i);
                Some((e.uuid, e.value))
            },
            None => None,
        }
    }

    /// The UUIDs of all items, each once.
    pub fn uuids(&self) -> (r: Vec<u128>)
        requires
            self.wf(),
        ensures
            forall|u: u128| #[trigger] self.map().dom().contains(u) <==> r@.contains(u),
            forall|i: int, j: int| 0 <= i < r@.len() && 0 <= j < r@.len() && i != j ==> r@[i] != r@[j],
    {
        let mut r: Vec<u128> = Vec::new();
        let mut i: usize = 0;
        while i < self.entries.len()
            invariant
                i <= self.entries@.len(),
                self.wf(),
                r@.len() == i,
                forall|j: int| 0 <= j < i ==> r@[j] == self.entries@[j].uuid,
            decreases self.entries@.len() - i,
        {
            r.push(self.entries[i].uuid);
            i = i + 1;
        }
        proof {
            let p = self.pairs();
            assert forall|u: u128| #[trigger] self.map().dom().contains(u) <==> r@.contains(u) by {
                lemma_assoc_dom(p, u);
                if self.map().dom().contains(u) {
                    let j = choose|j: int| 0 <= j < p.len() && p[j].0 == u;
                    assert(r@[j] == u);
                }
                if r@.contains(u) {
                    let j = choose|j: int| 0 <= j < r@.len() && r@[j] == u;
                    assert(p[j].0 == u);
                }
            }
            assert forall|a: int, b: int| 0 <= a < r@.len() && 0 <= b < r@.len() && a != b implies r@[a] != r@[b] by {
                assert(p[a].0 == r@[a]);
                assert(p[b].0 == r@[b]);
            }
        }
        r
    }
}

/// The list of UUIDs with names and values that a table's entries denote.
pub open spec fn pairs_of<T>(es: Seq<TableEntry<T>>) -> Seq<(u128, (Seq<char>, T))> {
    Seq::new(es.len(), |i: int| (es[i].uuid, (es[i].name@, es[i].value)))
}

/// The entry `e` with its value replaced by `v`.
pub open spec fn with_value<T>(e: TableEntry<T>, v: T) -> TableEntry<T> {
    TableEntry { name: e.name, uuid: e.uuid, value: v }
}

/// Whether two strings are the same text.
pub fn str_eq(a: &str, b: &str) -> (r: bool)
    ensures
        r == (a@ == b@),
{
    let n = a.unicode_len();
    if n != b.unicode_len() {
        return false;
    }
    let mut i: usize = 0;
    while i < n
        invariant
            n == a@.len(),
            n == b@.len(),
            i <= n,
            forall|j: int| 0 <= j < i ==> a@[j] == b@[j],
        decreases n - i,
    {
        if a.get_char(i) != b.get_char(i) {
            return false;
        }
        i = i + 1;
    }
    assert(a@ =~= b@);
    true
}

} // verus!
