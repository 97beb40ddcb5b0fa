//! Lists by name.

use vstd::prelude::*;
use vstd::hash_map::StringHashMap;

verus! {

broadcast use {
    vstd::string::group_string_axioms,
    vstd::seq::group_seq_axioms,
    vstd::map::group_map_axioms,
};

/// Lists by name. A name without items has no list.
pub struct ListMap<T> {
    /// Where the list of a name stands.
    slots: StringHashMap<usize>,
    lists: Vec<Vec<T>>,
}

impl<T> ListMap<T> {
    /// The lists by name.
    pub closed spec fn contents(self) -> Map<Seq<char>, Seq<T>> {
        Map::new(
            |k: Seq<char>|
                self.slots@.dom().contains(k) && self.lists@[self.slots@[k] as int]@.len() > 0,
            |k: Seq<char>| self.lists@[self.slots@[k] as int]@,
        )
    }

    /// Every name has a place of its own.
    pub closed spec fn inv(self) -> bool {
        &&& forall|k: Seq<char>| #[trigger]
            self.slots@.dom().contains(k) ==> self.slots@[k] < self.lists@.len()
        &&& forall|a: Seq<char>, b: Seq<char>|
            #![trigger self.slots@[a], self.slots@[b]]
            self.slots@.dom().contains(a) && self.slots@.dom().contains(b) && self.slots@[a]
                == self.slots@[b] ==> a == b
    }

    pub fn new() -> (r: ListMap<T>)
        ensures
            r.inv(),
            r.contents() == Map::<Seq<char>, Seq<T>>::empty(),
    {
        let r: ListMap<T> = ListMap { slots: StringHashMap::new(), lists: Vec::new() };
        assert(r.contents() =~= Map::<Seq<char>, Seq<T>>::empty());
        r
    }

    /// The list of a name.
    pub fn get(&self, name: &str) -> (r: Option<&Vec<T>>)
        requires
            self.inv(),
        ensures
            match r {
                Some(list) => self.contents().dom().contains(name@) && list@
                    == self.contents()[name@] && list@.len() > 0,
                None => !self.contents().dom().contains(name@),
            },
    {
        match self.slots.get(name) {
            Some(slot) => {
                let list: &Vec<T> = &self.lists[*slot];
                if list.len() > 0 {
                    Some(list)
                } else {
                    None
                }
            },
            None => None,
        }
    }

    /// Adds an item to the list of a name.
    pub fn push(&mut self, name: &str, item: T)
        requires
            old(self).inv(),
        ensures
            final(self).inv(),
            final(self).contents() == old(self).contents().insert(
                name@,
                (if old(self).contents().dom().contains(name@) {
                    old(self).contents()[name@]
                } else {
                    Seq::empty()
                }).push(item),
            ),
    {
        let slot: usize = match self.slots.get(name) {
            Some(slot) => *slot,
            None => {
                let slot: usize = self.lists.len();
                self.lists.push(Vec::new());
                self.slots.insert(name.to_owned(), slot);
                slot
            },
        };
        let ghost before = self.lists@[slot as int]@;
        self.lists[slot].push(item);
        proof {
            let start = old(self).contents();
            let held = if start.dom().contains(name@) {
                start[name@]
            } else {
                Seq::empty()
            };
            assert(before =~= held);
            assert(self.lists@[slot as int]@ == held.push(item));
            assert forall|k: Seq<char>| k != name@ implies (#[trigger] self.contents().dom().contains(
                k,
            ) == start.dom().contains(k)) && (start.dom().contains(k) ==> self.contents()[k]
                == start[k]) by {
                if self.slots@.dom().contains(k) {
                    assert(self.slots@[k] != self.slots@[name@]);
                }
            }
            assert(self.contents() =~= start.insert(name@, held.push(item)));
        }
    }

    /// Takes the list of a name out.
    pub fn take(&mut self, name: &str) -> (r: Vec<T>)
        requires
            old(self).inv(),
        ensures
            final(self).inv(),
            r@ == (if old(self).contents().dom().contains(name@) {
                old(self).contents()[name@]
            } else {
                Seq::empty()
            }),
            final(self).contents() == old(self).contents().remove(name@),
    {
        let mut list: Vec<T> = Vec::new();
        match self.slots.get(name) {
            Some(slot) => {
                let slot: usize = *slot;
                std::mem::swap(&mut list, &mut self.lists[slot]);
            },
            None => {},
        }
        assert(self.contents() =~= old(self).contents().remove(name@));
        list
    }

    /// Puts a list under a name that has none.
    pub fn put(&mut self, name: &str, list: Vec<T>)
        requires
            old(self).inv(),
            !old(self).contents().dom().contains(name@),
        ensures
            final(self).inv(),
            final(self).contents() == (if list@.len() > 0 {
                old(self).contents().insert(name@, list@)
            } else {
                old(self).contents()
            }),
    {
        let ghost given = list@;
        let known: Option<usize> = match self.slots.get(name) {
            Some(slot) => Some(*slot),
            None => None,
        };
        match known {
            Some(slot) => {
                self.lists.set(slot, list);
            },
            None => {
                let slot: usize = self.lists.len();
                self.lists.push(list);
                self.slots.insert(name.to_owned(), slot);
            },
        }
        proof {
            let start = old(self).contents();
            assert(self.lists@[self.slots@[name@] as int]@ == given);
            assert forall|k: Seq<char>| k != name@ implies (#[trigger] self.contents().dom().contains(
                k,
            ) == start.dom().contains(k)) && (start.dom().contains(k) ==> self.contents()[k]
                == start[k]) by {
                if self.slots@.dom().contains(k) {
                    assert(self.slots@[k] != self.slots@[name@]);
                }
            }
            if given.len() > 0 {
                assert(self.contents() =~= start.insert(name@, given));
            } else {
                assert(self.contents() =~= start);
            }
        }
    }

    /// Removes every list.
    pub fn clear(&mut self)
        ensures
            final(self).inv(),
            final(self).contents() == Map::<Seq<char>, Seq<T>>::empty(),
    {
        self.slots = StringHashMap::new();
        self.lists = Vec::new();
        assert(self.contents() =~= Map::<Seq<char>, Seq<T>>::empty());
    }
}

} // verus!
