//! The upstreams that are served on virtual addresses.

use crate::ip_map::IpMap;
use crate::net::{IpAddr, SocketAddr};
use crate::workload::{Upstream, UpstreamView, Workload};
use std::collections::HashMap;
use vstd::prelude::*;

verus! {

impl Workload {
    /// Whether two workloads say the same.
    pub fn same(&self, other: &Workload) -> (r: bool)
        ensures
            r == (self@ == other@),
    {
        self.workload_ip == other.workload_ip && self.waypoint_address == other.waypoint_address
            && self.gateway_ip == other.gateway_ip && self.protocol == other.protocol && self.name
            == other.name && self.namespace == other.namespace && self.service_account
            == other.service_account && self.node == other.node && self.native_hbone
            == other.native_hbone
    }
}

impl Upstream {
    /// Whether two upstreams say the same.
    pub fn same(&self, other: &Upstream) -> (r: bool)
        ensures
            r == (self@ == other@),
    {
        self.workload.same(&other.workload) && self.port == other.port
    }
}

/// A set of upstreams, each kept once.
pub struct UpstreamSet {
    items: Vec<Upstream>,
}

impl View for UpstreamSet {
    type V = Set<UpstreamView>;

    closed spec fn view(&self) -> Set<UpstreamView> {
        Set::new(|u: UpstreamView| exists|i: int| 0 <= i < self.items@.len() && self.items@[i]@ == u)
    }
}

impl UpstreamSet {
    /// No upstream is kept twice.
    pub closed spec fn wf(self) -> bool {
        forall|i: int, j: int|
            0 <= i < j < self.items@.len() ==> self.items@[i]@ != self.items@[j]@
    }

    /// The empty set.
    pub fn new() -> (r: UpstreamSet)
        ensures
            r.wf(),
            r@ == Set::<UpstreamView>::empty(),
    {
        let r: UpstreamSet = UpstreamSet { items: Vec::new() };
        assert(r@ =~= Set::<UpstreamView>::empty());
        r
    }

    /// Puts an upstream in.
    pub fn insert(&mut self, us: Upstream)
        requires
            old(self).wf(),
        ensures
            final(self).wf(),
            final(self)@ == old(self)@.insert(us@),
    {
        let mut i: usize = 0;
        while i < self.items.len()
            invariant
                i <= self.items@.len(),
                *self == *old(self),
                old(self).wf(),
                forall|j: int| 0 <= j < i ==> self.items@[j]@ != us@,
            decreases self.items@.len() - i,
        {
            if self.items[i].same(&us) {
                assert(self@.contains(us@));
                assert(self@ =~= old(self)@.insert(us@));
                return ;
            }
            i = i + 1;
        }
        self.items.push(us);
        let ghost n = old(self).items@.len();
        assert forall|u: UpstreamView| self@.contains(u) == old(self)@.insert(us@).contains(u) by {
            if old(self)@.contains(u) {
                let k = choose|k: int| 0 <= k < n && old(self).items@[k]@ == u;
                assert(self.items@[k]@ == u);
            }
            if u == us@ {
                assert(self.items@[n as int]@ == u);
            }
        }
        assert(self@ =~= old(self)@.insert(us@));
    }

    /// The upstreams, in no particular order.
    pub fn items(&self) -> (r: &Vec<Upstream>)
        requires
            self.wf(),
        ensures
            forall|i: int, j: int| 0 <= i < j < r@.len() ==> r@[i]@ != r@[j]@,
            forall|us: UpstreamView| #[trigger]
                self@.contains(us) <==> exists|i: int| 0 <= i < r@.len() && r@[i]@ == us,
    {
        &self.items
    }

    /// One of the upstreams, whichever comes to hand.
    pub fn any(&self) -> (r: Option<&Upstream>)
        ensures
            match r {
                Some(us) => self@.contains(us@),
                None => self@ == Set::<UpstreamView>::empty(),
            },
    {
        if self.items.len() > 0 {
            assert(self@.contains(self.items@[0]@));
            Some(&self.items[0])
        } else {
            assert(self@ =~= Set::<UpstreamView>::empty());
            None
        }
    }
}

/// The upstreams by virtual address and port.
pub struct VipTable {
    services: IpMap<HashMap<u16, UpstreamSet>>,
}

impl View for VipTable {
    type V = Map<SocketAddr, Set<UpstreamView>>;

    closed spec fn view(&self) -> Map<SocketAddr, Set<UpstreamView>> {
        Map::new(
            |addr: SocketAddr| self.has(addr),
            |addr: SocketAddr| self.services@[addr.spec_ip()]@[addr.spec_port()]@,
        )
    }
}

/// The table with one upstream more at `addr`.
pub open spec fn bound(
    vips: Map<SocketAddr, Set<UpstreamView>>,
    addr: SocketAddr,
    us: UpstreamView,
) -> Map<SocketAddr, Set<UpstreamView>> {
    let there = if vips.contains_key(addr) {
        vips[addr]
    } else {
        Set::empty()
    };
    vips.insert(addr, there.insert(us))
}

impl VipTable {
    /// Whether anything is served at `addr`.
    closed spec fn has(self, addr: SocketAddr) -> bool {
        &&& addr == crate::net::socket(addr.spec_ip(), addr.spec_port())
        &&& self.services@.contains_key(addr.spec_ip())
        &&& self.services@[addr.spec_ip()]@.contains_key(addr.spec_port())
    }

    /// Every set is well formed and holds something.
    pub closed spec fn wf(self) -> bool {
        forall|ip: IpAddr, port: u16|
            #![trigger self.services@[ip]@[port]]
            self.services@.contains_key(ip) && self.services@[ip]@.contains_key(port) ==> {
                &&& self.services@[ip]@[port].wf()
                &&& self.services@[ip]@[port]@ != Set::<UpstreamView>::empty()
            }
    }

    /// A table that serves nothing.
    pub fn new() -> (r: VipTable)
        ensures
            r.wf(),
            r@ == Map::<SocketAddr, Set<UpstreamView>>::empty(),
    {
        let r: VipTable = VipTable { services: IpMap::new() };
        assert(r@ =~= Map::<SocketAddr, Set<UpstreamView>>::empty());
        r
    }

    /// Serves one upstream more at `ip` and `port`.
    pub fn add_upstream(&mut self, ip: IpAddr, port: u16, us: Upstream)
        requires
            old(self).wf(),
        ensures
            final(self).wf(),
            final(self)@ == bound(old(self)@, crate::net::socket(ip, port), us@),
    {
        let mut ports: HashMap<u16, UpstreamSet> = match self.services.remove(&ip) {
            Some(ports) => ports,
            None => HashMap::new(),
        };
        let ghost before = ports@;
        let mut set: UpstreamSet = match ports.remove(&port) {
            Some(set) => set,
            None => UpstreamSet::new(),
        };
        assert(set.wf());
        set.insert(us);
        assert(set@.contains(us@));
        ports.insert(port, set);
        self.services.insert(ip, ports);
        let ghost addr = crate::net::socket(ip, port);
        assert(ports@ =~= before.insert(port, set));
        assert(self.services@ =~= old(self).services@.insert(ip, ports));
        assert forall|i: IpAddr, p: u16|
            #![trigger self.services@[i]@[p]]
            self.services@.contains_key(i) && self.services@[i]@.contains_key(p) implies {
            &&& self.services@[i]@[p].wf()
            &&& self.services@[i]@[p]@ != Set::<UpstreamView>::empty()
        } by {
            if i == ip && p != port {
                assert(old(self).services@[i]@[p] == self.services@[i]@[p]);
            } else if i != ip {
                assert(old(self).services@[i]@[p] == self.services@[i]@[p]);
            }
        }
        assert(self@ =~= bound(old(self)@, addr, us@));
    }

    /// What is served at `addr`.
    pub fn get(&self, addr: &SocketAddr) -> (r: Option<&UpstreamSet>)
        requires
            self.wf(),
        ensures
            match r {
                Some(set) => self@.contains_key(*addr) && self@[*addr] == set@ && set@ != Set::<
                    UpstreamView,
                >::empty(),
                None => !self@.contains_key(*addr),
            },
    {
        let ip: IpAddr = addr.ip();
        let port: u16 = addr.port();
        if SocketAddr::new(ip, port) != *addr {
            return None;
        }
        match self.services.get(&ip) {
            Some(ports) => ports.get(&port),
            None => None,
        }
    }

    /// The addresses and what is served at them, in no particular order.
    pub fn entries(&self) -> (r: Vec<(SocketAddr, &UpstreamSet)>)
        requires
            self.wf(),
        ensures
            forall|i: int, j: int| 0 <= i < j < r@.len() ==> r@[i].0 != r@[j].0,
            forall|i: int|
                0 <= i < r@.len() ==> {
                    &&& self@.contains_key((#[trigger] r@[i]).0)
                    &&& self@[r@[i].0] == r@[i].1@
                    &&& r@[i].1.wf()
                },
            forall|addr: SocketAddr| #[trigger]
                self@.contains_key(addr) ==> exists|i: int|
                    0 <= i < r@.len() && (#[trigger] r@[i]).0 == addr,
    {
        let services: Vec<(IpAddr, &HashMap<u16, UpstreamSet>)> = self.services.entries();
        let mut r: Vec<(SocketAddr, &UpstreamSet)> = Vec::new();
        let mut i: usize = 0;
        while i < services.len()
            invariant
                i <= services@.len(),
                self.wf(),
                forall|a: int, b: int|
                    0 <= a < b < services@.len() ==> services@[a].0 != services@[b].0,
                forall|a: int|
                    0 <= a < services@.len() ==> self.services@.contains_key(
                        (#[trigger] services@[a]).0,
                    ) && self.services@[services@[a].0] == *services@[a].1,
                forall|a: int, b: int| 0 <= a < b < r@.len() ==> r@[a].0 != r@[b].0,
                forall|a: int|
                    0 <= a < r@.len() ==> {
                        &&& self@.contains_key((#[trigger] r@[a]).0)
                        &&& self@[r@[a].0] == r@[a].1@
                        &&& r@[a].1.wf()
                        &&& exists|k: int|
                            0 <= k < i && (#[trigger] services@[k]).0 == r@[a].0.spec_ip()
                    },
                forall|k: int, port: u16|
                    0 <= k < i && (#[trigger] services@[k]).1@.contains_key(port)
                        ==> exists|a: int|
                        0 <= a < r@.len() && (#[trigger] r@[a]).0 == #[trigger] crate::net::socket(
                            services@[k].0,
                            port,
                        ),
            decreases services@.len() - i,
        {
            let ip: IpAddr = services[i].0;
            let ports: Vec<(u16, &UpstreamSet)> = crate::ip_map::listed(services[i].1);
            let ghost before = r@;
            let mut j: usize = 0;
            while j < ports.len()
                invariant
                    i < services@.len(),
                    j <= ports@.len(),
                    self.wf(),
                    ip == services@[i as int].0,
                    self.services@.contains_key(ip),
                    forall|a: int, b: int|
                        0 <= a < b < services@.len() ==> services@[a].0 != services@[b].0,
                    forall|a: int, b: int|
                        0 <= a < b < ports@.len() ==> ports@[a].0 != ports@[b].0,
                    forall|a: int|
                        0 <= a < ports@.len() ==> self.services@[ip]@.contains_key(
                            (#[trigger] ports@[a]).0,
                        ) && self.services@[ip]@[ports@[a].0] == *ports@[a].1,
                    before.len() + j == r@.len(),
                    forall|a: int| 0 <= a < before.len() ==> #[trigger] r@[a] == before[a],
                    forall|a: int|
                        0 <= a < before.len() ==> exists|k: int|
                            0 <= k < i && (#[trigger] services@[k]).0 == (
                            #[trigger] before[a]).0.spec_ip(),
                    forall|m: int|
                        0 <= m < j ==> (#[trigger] r@[before.len() + m]).0 == crate::net::socket(
                            ip,
                            ports@[m].0,
                        ),
                    forall|a: int, b: int| 0 <= a < b < r@.len() ==> r@[a].0 != r@[b].0,
                    forall|a: int|
                        0 <= a < r@.len() ==> {
                            &&& self@.contains_key((#[trigger] r@[a]).0)
                            &&& self@[r@[a].0] == r@[a].1@
                            &&& r@[a].1.wf()
                        },
                decreases ports@.len() - j,
            {
                let addr: SocketAddr = SocketAddr::new(ip, ports[j].0);
                let set: &UpstreamSet = ports[j].1;
                assert(self.services@[ip]@[ports@[j as int].0] == *set);
                assert forall|a: int| 0 <= a < r@.len() implies (#[trigger] r@[a]).0 != addr by {
                    if a < before.len() {
                        let k = choose|k: int|
                            0 <= k < i && (#[trigger] services@[k]).0 == before[a].0.spec_ip();
                        assert(services@[k].0 != services@[i as int].0);
                    } else {
                        let m = a - before.len();
                        assert(r@[before.len() + m].0 == crate::net::socket(ip, ports@[m].0));
                        assert(ports@[m].0 != ports@[j as int].0);
                    }
                }
                r.push((addr, set));
                j = j + 1;
            }
            assert forall|a: int| 0 <= a < r@.len() implies exists|k: int|
                0 <= k < i + 1 && (#[trigger] services@[k]).0 == (#[trigger] r@[a]).0.spec_ip() by {
                if a < before.len() {
                    let k = choose|k: int|
                        0 <= k < i && (#[trigger] services@[k]).0 == before[a].0.spec_ip();
                    assert(services@[k].0 == r@[a].0.spec_ip());
                } else {
                    let m = a - before.len();
                    assert(r@[before.len() + m].0 == crate::net::socket(ip, ports@[m].0));
                    assert(services@[i as int].0 == r@[a].0.spec_ip());
                }
            }
            assert forall|k: int, port: u16|
                0 <= k < i + 1 && (#[trigger] services@[k]).1@.contains_key(port) implies exists|
                a: int,
            |
                0 <= a < r@.len() && (#[trigger] r@[a]).0 == #[trigger] crate::net::socket(
                    services@[k].0,
                    port,
                ) by {
                if k < i {
                    let a = choose|a: int|
                        0 <= a < before.len() && (#[trigger] before[a]).0 == crate::net::socket(
                            services@[k].0,
                            port,
                        );
                    assert(r@[a].0 == crate::net::socket(services@[k].0, port));
                } else {
                    let m = choose|m: int|
                        0 <= m < ports@.len() && (#[trigger] ports@[m]).0 == port;
                    assert(r@[before.len() + m].0 == crate::net::socket(ip, ports@[m].0));
                }
            }
            i = i + 1;
        }
        assert forall|addr: SocketAddr| #[trigger] self@.contains_key(addr) implies exists|a: int|
            0 <= a < r@.len() && (#[trigger] r@[a]).0 == addr by {
            let ip = addr.spec_ip();
            let k = choose|k: int| 0 <= k < services@.len() && services@[k].0 == ip;
            assert(services@[k].1@.contains_key(addr.spec_port()));
            assert(crate::net::socket(services@[k].0, addr.spec_port()) == addr);
        }
        r
    }
}

} // verus!
