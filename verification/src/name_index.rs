//! The addresses of workloads by name.

use crate::net::IpAddr;
use vstd::hash_map::StringHashMap;
use vstd::prelude::*;

verus! {

/// A name and the address that it stands for.
#[derive(Debug, PartialEq, Eq)]
pub struct NameEntry {
    pub name: String,
    pub ip: IpAddr,
}

/// A map from names to addresses. The entries stand in a row, in no particular order,
/// and a hash map tells where each name stands.
pub struct NameIndex {
    slots: StringHashMap<usize>,
    entries: Vec<NameEntry>,
}

impl View for NameIndex {
    type V = Map<Seq<char>, IpAddr>;

    closed spec fn view(&self) -> Map<Seq<char>, IpAddr> {
        Map::new(
            |name: Seq<char>| self.slots@.contains_key(name),
            |name: Seq<char>| self.entries@[self.slots@[name] as int].ip,
        )
    }
}

impl NameIndex {
    /// Each name stands where the hash map says, and nowhere else.
    pub closed spec fn wf(self) -> bool {
        &&& forall|name: Seq<char>| #[trigger]
            self.slots@.contains_key(name) ==> {
                &&& self.slots@[name] < self.entries@.len()
                &&& self.entries@[self.slots@[name] as int].name@ == name
            }
        &&& forall|i: int|
            0 <= i < self.entries@.len() ==> {
                &&& self.slots@.contains_key((#[trigger] self.entries@[i]).name@)
                &&& self.slots@[self.entries@[i].name@] == i
            }
    }

    /// An index without names.
    pub fn new() -> (r: NameIndex)
        ensures
            r.wf(),
            r@ == Map::<Seq<char>, IpAddr>::empty(),
    {
        let r: NameIndex = NameIndex { slots: StringHashMap::new(), entries: Vec::new() };
        assert(r@ =~= Map::<Seq<char>, IpAddr>::empty());
        r
    }

    /// The address of a name.
    pub fn get(&self, name: &str) -> (r: Option<IpAddr>)
        requires
            self.wf(),
        ensures
            r == (if self@.contains_key(name@) {
                Some(self@[name@])
            } else {
                None
            }),
    {
        match self.slots.get(name) {
            Some(i) => Some(self.entries[*i].ip),
            None => None,
        }
    }

    /// Gives a name an address, in place of any that it had.
    pub fn insert(&mut self, name: String, ip: IpAddr)
        requires
            old(self).wf(),
        ensures
            final(self).wf(),
            final(self)@ == old(self)@.insert(name@, ip),
    {
        let slot: Option<usize> = match self.slots.get(name.as_str()) {
            Some(i) => Some(*i),
            None => None,
        };
        match slot {
            Some(i) => {
                self.entries.set(i, NameEntry { name, ip });
            },
            None => {
                let i: usize = self.entries.len();
                self.slots.insert(name.clone(), i);
                self.entries.push(NameEntry { name, ip });
            },
        }
        assert(self.wf());
        assert(self@ =~= old(self)@.insert(name@, ip));
    }

    /// Forgets a name; gives the address that it had.
    pub fn remove(&mut self, name: &str) -> (r: Option<IpAddr>)
        requires
            old(self).wf(),
        ensures
            final(self).wf(),
            final(self)@ == old(self)@.remove(name@),
            r == (if old(self)@.contains_key(name@) {
                Some(old(self)@[name@])
            } else {
                None
            }),
    {
        let slot: Option<usize> = match self.slots.get(name) {
            Some(i) => Some(*i),
            None => None,
        };
        match slot {
            Some(i) => {
                self.slots.remove(name);
                let removed: NameEntry = self.entries.swap_remove(i);
                if i < self.entries.len() {
                    let moved: String = self.entries[i].name.clone();
                    self.slots.insert(moved, i);
                }
                assert(self.wf());
                assert(self@ =~= old(self)@.remove(name@));
                Some(removed.ip)
            },
            None => {
                assert(self@ =~= old(self)@.remove(name@));
                None
            },
        }
    }

    /// The names and their addresses.
    pub fn entries(&self) -> (r: &Vec<NameEntry>)
        requires
            self.wf(),
        ensures
            forall|i: int, j: int| 0 <= i < j < r@.len() ==> r@[i].name@ != r@[j].name@,
            forall|i: int|
                0 <= i < r@.len() ==> self@.contains_key((#[trigger] r@[i]).name@)
                    && self@[r@[i].name@] == r@[i].ip,
            forall|name: Seq<char>| #[trigger]
                self@.contains_key(name) ==> exists|i: int|
                    0 <= i < r@.len() && r@[i].name@ == name,
    {
        &self.entries
    }
}

} // verus!
