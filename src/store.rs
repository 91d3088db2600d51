use std::collections::HashMap;
use vstd::prelude::*;
use vstd::std_specs::iter::IteratorSpec;

use crate::person::{Person, PersonView};

verus! {

broadcast use vstd::std_specs::hash::group_hash_axioms;

/// Every entry is stored under its own identifier, and no identifier is zero.
pub open spec fn keyed_by_id(m: Map<u64, PersonView>) -> bool {
    forall|k: u64| #[trigger] m.contains_key(k) ==> m[k].id == k && k != 0
}

/// `id` is the identifier that the store hands out next: one on an empty
/// store, else one more than the largest identifier present.
pub open spec fn is_next_id(m: Map<u64, PersonView>, id: u64) -> bool {
    if m.dom().is_empty() {
        id == 1
    } else {
        id != 0 && m.contains_key((id - 1) as u64) && forall|k: u64| #[trigger]
            m.contains_key(k) ==> k < id
    }
}

/// The store is full when its largest identifier has no successor in `u64`.
pub open spec fn is_full(m: Map<u64, PersonView>) -> bool {
    m.contains_key(u64::MAX)
}

/// The record that `draft` becomes when it is stored under `id`.
pub open spec fn with_id(draft: PersonView, id: u64) -> PersonView {
    PersonView { id: id, name: draft.name, age: draft.age }
}

/// The record `current` after an update with `patch`: the name and the age
/// are taken from `patch`, the identifier is kept.
pub open spec fn patched(current: PersonView, patch: PersonView) -> PersonView {
    PersonView { id: current.id, name: patch.name, age: patch.age }
}

/// `s` holds one copy of each record of `m`, in some order.
pub open spec fn lists_exactly(s: Seq<PersonView>, m: Map<u64, PersonView>) -> bool {
    &&& s.len() == m.dom().len()
    &&& forall|i: int| 0 <= i < s.len() ==> m.contains_key(#[trigger] s[i].id) && m[s[i].id] == s[i]
    &&& forall|i: int, j: int| 0 <= i < j < s.len() ==> #[trigger] s[i].id != #[trigger] s[j].id
    &&& forall|k: u64| #[trigger] m.contains_key(k) ==> exists|i: int| 0 <= i < s.len() && s[i].id == k
}

/// The mapping from identifier to person record.
pub struct Store {
    persons: HashMap<u64, Person>,
}

impl View for Store {
    type V = Map<u64, PersonView>;

    closed spec fn view(&self) -> Map<u64, PersonView> {
        self.persons@.map_values(|p: Person| p@)
    }
}

impl Store {
    /// The store's invariant.
    pub open spec fn inv(&self) -> bool {
        keyed_by_id(self@)
    }

    /// An empty store.
    pub fn new() -> (r: Store)
        ensures
            r.inv(),
            r@ == Map::<u64, PersonView>::empty(),
    {
        let r = Store { persons: HashMap::new() };
        assert(r@ =~= Map::<u64, PersonView>::empty());
        r
    }

    /// The largest identifier present, or zero on an empty store.
    fn max_id(&self) -> (r: u64)
        ensures
            self@.dom().is_empty() ==> r == 0,
            !self@.dom().is_empty() ==> self@.contains_key(r),
            forall|k: u64| #[trigger] self@.contains_key(k) ==> k <= r,
    {
        let mut top: u64 = 0;
        let mut seen: bool = false;
        let ghost keys = self.persons.keys().remaining();
        let ghost mut n: int = 0;
        for k in it: self.persons.keys()
            invariant
                it.seq() == keys,
                n == it.index(),
                seen ==> self.persons@.contains_key(top),
                !seen ==> top == 0,
                forall|j: int| 0 <= j < it.index() ==> *keys[j] <= top,
                seen == (it.index() > 0),
        {
            if !seen || *k > top {
                top = *k;
            }
            seen = true;
            proof { n = n + 1; }
        }
        proof {
            assert(self@.dom() == self.persons@.dom());
            if self@.dom().is_empty() {
                assert(keys.len() == 0);
            }
        }
        top
    }

    /// Stores `draft` under the next identifier (see `is_next_id`), which
    /// replaces the identifier that `draft` carried, and returns the stored
    /// record. Fails only when the identifiers are used up.
    pub fn create(&mut self, draft: Person) -> (r: Option<Person>)
        requires
            old(self).inv(),
        ensures
            final(self).inv(),
            r is None <==> is_full(old(self)@),
            r is None ==> final(self)@ == old(self)@,
            r matches Some(p) ==> {
                &&& is_next_id(old(self)@, p.id)
                &&& p@ == with_id(draft@, p.id)
                &&& final(self)@ == old(self)@.insert(p.id, p@)
            },
    {
        let top = self.max_id();
        if top == u64::MAX {
            return None;
        }
        let id: u64 = top + 1;
        let person = Person { id, name: draft.name, age: draft.age };
        self.persons.insert(id, person.duplicate());
        proof {
            assert(self@ =~= old(self)@.insert(id, person@));
        }
        Some(person)
    }

    /// A copy of the record stored under `id`, if there is one.
    pub fn get(&self, id: u64) -> (r: Option<Person>)
        ensures
            r is Some <==> self@.contains_key(id),
            r matches Some(p) ==> p@ == self@[id],
    {
        match self.persons.get(&id) {
            Some(p) => Some(p.duplicate()),
            None => None,
        }
    }

    /// Gives the record stored under `id` the name and the age of `patch`,
    /// keeping its identifier, and returns the updated record.
    pub fn update(&mut self, id: u64, patch: Person) -> (r: Option<Person>)
        requires
            old(self).inv(),
        ensures
            final(self).inv(),
            r is Some <==> old(self)@.contains_key(id),
            r is None ==> final(self)@ == old(self)@,
            r matches Some(p) ==> {
                &&& p@ == patched(old(self)@[id], patch@)
                &&& final(self)@ == old(self)@.insert(id, p@)
            },
    {
        if !self.persons.contains_key(&id) {
            return None;
        }
        let person = Person { id, name: patch.name, age: patch.age };
        self.persons.insert(id, person.duplicate());
        proof {
            assert(old(self)@.contains_key(id));
            assert(self@ =~= old(self)@.insert(id, person@));
        }
        Some(person)
    }

    /// Removes the record stored under `id`; true when there was one.
    pub fn delete(&mut self, id: u64) -> (r: bool)
        requires
            old(self).inv(),
        ensures
            final(self).inv(),
            r == old(self)@.contains_key(id),
            final(self)@ == old(self)@.remove(id),
    {
        let removed = self.persons.remove(&id);
        proof {
            assert(self@ =~= old(self)@.remove(id));
        }
        removed.is_some()
    }

    /// A copy of every stored record, in no particular order.
    pub fn list(&self) -> (r: Vec<Person>)
        requires
            self.inv(),
        ensures
            lists_exactly(r@.map_values(|p: Person| p@), self@),
    {
        let mut out: Vec<Person> = Vec::new();
        let ghost entries = self.persons.iter().remaining();
        for entry in it: self.persons.iter()
            invariant
                it.seq() == entries,
                out@.len() == it.index(),
                forall|j: int| 0 <= j < it.index() ==> (#[trigger] out@[j])@ == (*entries[j].1)@,
        {
            let (_, p) = entry;
            out.push(p.duplicate());
        }
        proof {
            let v = out@.map_values(|p: Person| p@);
            assert(self@.dom() == self.persons@.dom());
            assert(out@.len() == entries.len());
            assert forall|i: int| 0 <= i < v.len() implies self@.contains_key(#[trigger] v[i].id)
                && self@[v[i].id] == v[i] by {
                assert(self.persons@.contains_key(*entries[i].0));
            }
            assert forall|i: int, j: int| 0 <= i < j < v.len() implies #[trigger] v[i].id
                != #[trigger] v[j].id by {
                assert(self.persons@.contains_key(*entries[i].0));
                assert(self.persons@.contains_key(*entries[j].0));
                if v[i].id == v[j].id {
                    assert(entries[i] == entries[j]);
                }
            }
            assert forall|k: u64| #[trigger] self@.contains_key(k) implies exists|i: int|
                0 <= i < v.len() && v[i].id == k by {
                assert(self.persons@.contains_key(k));
                assert(entries.contains((&k, &self.persons@[k])));
                let i = entries.index_of((&k, &self.persons@[k]));
                assert(entries[i] == (&k, &self.persons@[k]));
                assert(v[i] == self@[k]);
                assert(v[i].id == k);
            }
        }
        out
    }
}

} // verus!
