//! A map with IP addresses as keys.

use crate::net::IpAddr;
use std::collections::HashMap;
use vstd::prelude::*;

verus! {

/// A hash map for each family of addresses.
pub struct IpMap<V> {
    v4: HashMap<u32, V>,
    v6: HashMap<u128, V>,
}

impl<V> View for IpMap<V> {
    type V = Map<IpAddr, V>;

    closed spec fn view(&self) -> Map<IpAddr, V> {
        Map::new(
            |ip: IpAddr|
                match ip {
                    IpAddr::V4(a) => self.v4@.contains_key(a),
                    IpAddr::V6(a) => self.v6@.contains_key(a),
                },
            |ip: IpAddr|
                match ip {
                    IpAddr::V4(a) => self.v4@[a],
                    IpAddr::V6(a) => self.v6@[a],
                },
        )
    }
}

impl<V> IpMap<V> {
    /// An empty map.
    pub fn new() -> (r: IpMap<V>)
        ensures
            r@ == Map::<IpAddr, V>::empty(),
    {
        let r: IpMap<V> = IpMap { v4: HashMap::new(), v6: HashMap::new() };
        assert(r@ =~= Map::<IpAddr, V>::empty());
        r
    }

    /// The value at `ip`.
    pub fn get(&self, ip: &IpAddr) -> (r: Option<&V>)
        ensures
            match r {
                Some(v) => self@.contains_key(*ip) && self@[*ip] == *v,
                None => !self@.contains_key(*ip),
            },
    {
        match ip {
            IpAddr::V4(a) => self.v4.get(a),
            IpAddr::V6(a) => self.v6.get(a),
        }
    }

    /// Puts the value at `ip`, in place of any that is there.
    pub fn insert(&mut self, ip: IpAddr, v: V)
        ensures
            final(self)@ == old(self)@.insert(ip, v),
    {
        match ip {
            IpAddr::V4(a) => {
                self.v4.insert(a, v);
            },
            IpAddr::V6(a) => {
                self.v6.insert(a, v);
            },
        }
        assert(self@ =~= old(self)@.insert(ip, v));
    }

    /// Takes the value at `ip` out.
    pub fn remove(&mut self, ip: &IpAddr) -> (r: Option<V>)
        ensures
            final(self)@ == old(self)@.remove(*ip),
            match r {
                Some(v) => old(self)@.contains_key(*ip) && old(self)@[*ip] == v,
                None => !old(self)@.contains_key(*ip),
            },
    {
        let r: Option<V> = match ip {
            IpAddr::V4(a) => self.v4.remove(a),
            IpAddr::V6(a) => self.v6.remove(a),
        };
        assert(self@ =~= old(self)@.remove(*ip));
        r
    }

    /// The addresses and their values, in no particular order.
    pub fn entries(&self) -> (r: Vec<(IpAddr, &V)>)
        ensures
            forall|i: int, j: int| 0 <= i < j < r@.len() ==> r@[i].0 != r@[j].0,
            forall|i: int|
                0 <= i < r@.len() ==> self@.contains_key((#[trigger] r@[i]).0)
                    && self@[r@[i].0] == *r@[i].1,
            forall|ip: IpAddr| #[trigger]
                self@.contains_key(ip) ==> exists|i: int| 0 <= i < r@.len() && r@[i].0 == ip,
    {
        let older: Vec<(u32, &V)> = listed(&self.v4);
        let newer: Vec<(u128, &V)> = listed(&self.v6);
        let mut r: Vec<(IpAddr, &V)> = Vec::new();
        let mut i: usize = 0;
        while i < older.len()
            invariant
                i <= older@.len(),
                r@.len() == i,
                forall|k: int|
                    0 <= k < i ==> #[trigger] r@[k] == (IpAddr::V4(older@[k].0), older@[k].1),
            decreases older@.len() - i,
        {
            r.push((IpAddr::V4(older[i].0), older[i].1));
            i = i + 1;
        }
        let ghost n = older@.len() as int;
        i = 0;
        while i < newer.len()
            invariant
                i <= newer@.len(),
                n == older@.len(),
                r@.len() == n + i,
                forall|k: int|
                    0 <= k < n ==> #[trigger] r@[k] == (IpAddr::V4(older@[k].0), older@[k].1),
                forall|k: int|
                    n <= k < n + i ==> #[trigger] r@[k] == (
                        IpAddr::V6(newer@[k - n].0),
                        newer@[k - n].1,
                    ),
            decreases newer@.len() - i,
        {
            r.push((IpAddr::V6(newer[i].0), newer[i].1));
            i = i + 1;
        }
        assert forall|ip: IpAddr| #[trigger] self@.contains_key(ip) implies exists|k: int|
            0 <= k < r@.len() && r@[k].0 == ip by {
            match ip {
                IpAddr::V4(a) => {
                    let k = choose|k: int| 0 <= k < older@.len() && (#[trigger] older@[k]).0 == a;
                    assert(r@[k].0 == ip);
                },
                IpAddr::V6(a) => {
                    let k = choose|k: int| 0 <= k < newer@.len() && (#[trigger] newer@[k]).0 == a;
                    assert(r@[n + k].0 == ip);
                },
            }
        }
        r
    }
}

/// The keys of a hash map and their values, in no particular order.
pub(crate) fn listed<K: Copy + Eq + std::hash::Hash, V>(m: &HashMap<K, V>) -> (r: Vec<(K, &V)>)
    requires
        vstd::std_specs::hash::obeys_key_model::<K>(),
    ensures
        forall|i: int, j: int| 0 <= i < j < r@.len() ==> r@[i].0 != r@[j].0,
        forall|i: int|
            0 <= i < r@.len() ==> m@.contains_key((#[trigger] r@[i]).0) && m@[r@[i].0]
                == *r@[i].1,
        forall|k: K| #[trigger]
            m@.contains_key(k) ==> exists|i: int| 0 <= i < r@.len() && (#[trigger] r@[i]).0 == k,
{
    let mut r: Vec<(K, &V)> = Vec::new();
    let ghost all = vstd::std_specs::iter::IteratorSpec::remaining(
        &vstd::std_specs::hash::spec_hash_map_iter(m),
    );
    for (k, v) in it: m.iter()
        invariant
            r@.len() == it.index(),
            it.seq() == all,
            all.no_duplicates(),
            forall|i: int|
                0 <= i < r@.len() ==> (#[trigger] r@[i]).0 == *all[i].0 && *r@[i].1 == *all[i].1,
    {
        r.push((*k, v));
    }
    assert(r@.len() == all.len());
    assert forall|i: int, j: int| 0 <= i < j < r@.len() implies r@[i].0 != r@[j].0 by {
        if r@[i].0 == r@[j].0 {
            assert(m@[*all[i].0] == *all[i].1);
            assert(m@[*all[j].0] == *all[j].1);
            assert(all[i] == all[j]);
        }
    }
    assert forall|k: K| #[trigger] m@.contains_key(k) implies exists|i: int|
        0 <= i < r@.len() && (#[trigger] r@[i]).0 == k by {
        assert(all.contains((&k, &m@[k])));
        let i = choose|i: int| 0 <= i < all.len() && all[i] == (&k, &m@[k]);
        assert(r@[i].0 == k);
    }
    r
}

} // verus!
