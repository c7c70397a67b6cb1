//! What is known about the workloads of the mesh.

use crate::ip_map::IpMap;
use crate::ip_parse;
use crate::ip_text;
use crate::name_index::{NameEntry, NameIndex};
use crate::net::{AddrParseError, IpAddr, SocketAddr};
use crate::upstreams::{UpstreamSet, VipTable};
use crate::workload::{
    Protocol, Upstream, UpstreamView, Workload, WorkloadView,
};
use crate::xds::{
    HandlerContext, Port, RejectReason, RejectReasonView, RejectedView, VirtualIp, XdsResource,
    XdsUpdate,
};
use vstd::prelude::*;

verus! {

/// The port on which gateways take tunnelled traffic.
pub const HBONE_PORT: u16 = 15008;

/// Workloads by address, addresses by name, and upstreams by virtual address.
pub struct WorkloadInformation {
    workloads: IpMap<Workload>,
    name_index: NameIndex,
    vips: VipTable,
}

/// What a [`WorkloadInformation`] knows.
#[verifier::ext_equal]
pub struct InformationView {
    pub workloads: Map<IpAddr, WorkloadView>,
    pub name_index: Map<Seq<char>, IpAddr>,
    pub vips: Map<SocketAddr, Set<UpstreamView>>,
}

impl View for WorkloadInformation {
    type V = InformationView;

    closed spec fn view(&self) -> InformationView {
        InformationView {
            workloads: self.workloads@.map_values(|w: Workload| w@),
            name_index: self.name_index@,
            vips: self.vips@,
        }
    }
}

/// A name that is to be removed stands for an address at which there is no workload.
#[derive(Debug, PartialEq, Eq)]
pub struct DanglingName {
    pub name: String,
    pub ip: IpAddr,
}

/// The upstream with its gateway filled in. One that is there stays. Otherwise tunnelled
/// traffic goes to the waypoint, if there is one, or else to the workload, at the port
/// that gateways listen on; other traffic goes straight to the workload.
pub open spec fn with_gateway(us: UpstreamView) -> UpstreamView {
    let w = us.workload;
    let gateway = match w.gateway_ip {
        Some(addr) => addr,
        None => match w.protocol {
            Protocol::Hbone => crate::net::socket(
                match w.waypoint_address {
                    Some(waypoint) => waypoint,
                    None => w.workload_ip,
                },
                HBONE_PORT,
            ),
            Protocol::Tcp => crate::net::socket(w.workload_ip, us.port),
        },
    };
    UpstreamView { workload: WorkloadView { gateway_ip: Some(gateway), ..w }, ..us }
}

/// The upstream for an address that nothing is known about: plain traffic to itself.
pub open spec fn passthrough(addr: SocketAddr) -> UpstreamView {
    UpstreamView {
        port: addr.spec_port(),
        workload: WorkloadView {
            workload_ip: addr.spec_ip(),
            waypoint_address: None,
            gateway_ip: Some(addr),
            protocol: Protocol::Tcp,
            name: Seq::empty(),
            namespace: Seq::empty(),
            node: Seq::empty(),
            service_account: Seq::empty(),
            native_hbone: false,
        },
    }
}

/// The address at which a port is served: the last sixteen bits count.
pub open spec fn service_addr(ip: IpAddr, port: Port) -> SocketAddr {
    crate::net::socket(ip, (port.service_port % 0x1_0000) as u16)
}

/// The upstream behind a port: the last sixteen bits count.
pub open spec fn target(w: WorkloadView, port: Port) -> UpstreamView {
    UpstreamView { workload: w, port: (port.target_port % 0x1_0000) as u16 }
}

/// The table with the workload served at `ip` on each of the ports.
pub open spec fn with_ports(
    vips: Map<SocketAddr, Set<UpstreamView>>,
    w: WorkloadView,
    ip: IpAddr,
    ports: Seq<Port>,
) -> Map<SocketAddr, Set<UpstreamView>>
    decreases ports.len(),
{
    if ports.len() == 0 {
        vips
    } else {
        crate::upstreams::bound(
            with_ports(vips, w, ip, ports.drop_last()),
            service_addr(ip, ports.last()),
            target(w, ports.last()),
        )
    }
}

/// The table with the workload served on each of the virtual addresses.
pub open spec fn with_virtual_ips(
    vips: Map<SocketAddr, Set<UpstreamView>>,
    w: WorkloadView,
    virtual_ips: Seq<VirtualIp>,
) -> Map<SocketAddr, Set<UpstreamView>>
    decreases virtual_ips.len(),
{
    if virtual_ips.len() == 0 {
        vips
    } else {
        with_ports(
            with_virtual_ips(vips, w, virtual_ips.drop_last()),
            w,
            ip_parse::ip_of_text(virtual_ips.last().vip@)->0,
            virtual_ips.last().ports@,
        )
    }
}

/// How many virtual addresses can be read before the first that cannot.
pub open spec fn readable(virtual_ips: Seq<VirtualIp>) -> nat
    decreases virtual_ips.len(),
{
    if virtual_ips.len() == 0 {
        0
    } else {
        let before = readable(virtual_ips.drop_last());
        if before == virtual_ips.len() - 1 && ip_parse::ip_of_text(
            virtual_ips.last().vip@,
        ) is Some {
            virtual_ips.len()
        } else {
            before
        }
    }
}

impl InformationView {
    /// Nothing is known.
    pub open spec fn empty() -> InformationView {
        InformationView {
            workloads: Map::empty(),
            name_index: Map::empty(),
            vips: Map::empty(),
        }
    }

    /// Each workload stands at its own address, and something is served at each virtual
    /// address that is known.
    pub open spec fn sound(self) -> bool {
        &&& forall|ip: IpAddr| #[trigger]
            self.workloads.contains_key(ip) ==> self.workloads[ip].workload_ip == ip
        &&& forall|addr: SocketAddr| #[trigger]
            self.vips.contains_key(addr) ==> self.vips[addr] != Set::<UpstreamView>::empty()
    }

    /// One workload more, in place of any at its address; its name stands for its address.
    pub open spec fn inserted(self, w: WorkloadView) -> InformationView {
        InformationView {
            workloads: self.workloads.insert(w.workload_ip, w),
            name_index: self.name_index.insert(w.resource_name(), w.workload_ip),
            vips: self.vips,
        }
    }

    /// Whether a name stands for an address at which there is no workload.
    pub open spec fn dangling(self, name: Seq<char>) -> bool {
        self.name_index.contains_key(name) && !self.workloads.contains_key(self.name_index[name])
    }

    /// Without the name and the workload at its address. Virtual addresses stay.
    pub open spec fn removed(self, name: Seq<char>) -> InformationView {
        if self.name_index.contains_key(name) {
            InformationView {
                workloads: self.workloads.remove(self.name_index[name]),
                name_index: self.name_index.remove(name),
                vips: self.vips,
            }
        } else {
            self
        }
    }

    /// With a resource taken in: nothing where it is no workload, else the workload and its
    /// virtual addresses up to the first that cannot be read.
    pub open spec fn updated(self, r: XdsResource) -> InformationView {
        match WorkloadView::of_xds(r.resource) {
            Ok(w) => {
                let virtual_ips = r.resource.virtual_ips@;
                InformationView {
                    vips: with_virtual_ips(
                        self.vips,
                        w,
                        virtual_ips.take(readable(virtual_ips) as int),
                    ),
                    ..self.inserted(w)
                }
            },
            Err(_) => self,
        }
    }

    /// After one update.
    pub open spec fn after(self, update: XdsUpdate) -> InformationView {
        match update {
            XdsUpdate::Update(r) => self.updated(r),
            XdsUpdate::Remove(name) => self.removed(name@),
        }
    }

    /// After updates, one after the other.
    pub open spec fn after_all(self, updates: Seq<XdsUpdate>) -> InformationView
        decreases updates.len(),
    {
        if updates.len() == 0 {
            self
        } else {
            self.after_all(updates.drop_last()).after(updates.last())
        }
    }

    /// Whether the update removes a dangling name.
    pub open spec fn stuck(self, update: XdsUpdate) -> bool {
        update matches XdsUpdate::Remove(name) && self.dangling(name@)
    }

    /// Whether none of the updates, when its turn comes, removes a dangling name.
    pub open spec fn none_stuck(self, updates: Seq<XdsUpdate>) -> bool {
        forall|i: int|
            0 <= i < updates.len() ==> !self.after_all(#[trigger] updates.take(i)).stuck(updates[i])
    }

    /// Whether `us` is an upstream for `addr`, found by virtual address if `vip` is set.
    /// A virtual address comes first, then a workload at the IP address; where nothing is
    /// known traffic passes through. Of several upstreams at a virtual address it is any.
    pub open spec fn resolves(self, addr: SocketAddr, us: UpstreamView, vip: bool) -> bool {
        if self.vips.contains_key(addr) {
            vip && exists|u: UpstreamView| #[trigger]
                self.vips[addr].contains(u) && us == with_gateway(u)
        } else if self.workloads.contains_key(addr.spec_ip()) {
            !vip && us == with_gateway(
                UpstreamView {
                    workload: self.workloads[addr.spec_ip()],
                    port: addr.spec_port(),
                },
            )
        } else {
            !vip && us == passthrough(addr)
        }
    }

    /// With workloads inserted one after the other.
    pub open spec fn inserted_all(self, workloads: Seq<Workload>) -> InformationView
        decreases workloads.len(),
    {
        if workloads.len() == 0 {
            self
        } else {
            self.inserted_all(workloads.drop_last()).inserted(workloads.last()@)
        }
    }
}

/// Why an update is refused: its resource is no workload, or it has a virtual address that
/// cannot be read. A removal is never refused.
pub open spec fn refusal(update: XdsUpdate) -> Option<RejectReasonView> {
    match update {
        XdsUpdate::Update(r) => match WorkloadView::of_xds(r.resource) {
            Ok(w) => if readable(r.resource.virtual_ips@) < r.resource.virtual_ips@.len() {
                Some(RejectReasonView::VirtualIp(AddrParseError))
            } else {
                None
            },
            Err(e) => Some(RejectReasonView::Workload(e)),
        },
        XdsUpdate::Remove(_) => None,
    }
}

/// The rejections with that of one resource more, if there is a reason.
pub open spec fn noted(
    rejects: Seq<RejectedView>,
    name: Seq<char>,
    reason: Option<RejectReasonView>,
) -> Seq<RejectedView> {
    match reason {
        Some(reason) => rejects.push(RejectedView { name, reason }),
        None => rejects,
    }
}

/// The rejections with those of updates, one after the other.
pub open spec fn noted_all(rejects: Seq<RejectedView>, updates: Seq<XdsUpdate>) -> Seq<
    RejectedView,
>
    decreases updates.len(),
{
    if updates.len() == 0 {
        rejects
    } else {
        noted(
            noted_all(rejects, updates.drop_last()),
            updates.last().spec_name(),
            refusal(updates.last()),
        )
    }
}

/// The reason that a result gives.
pub open spec fn reason_of(result: Result<(), RejectReason>) -> Option<RejectReasonView> {
    match result {
        Ok(_) => None,
        Err(e) => Some(e@),
    }
}

/// Runs `f` for the resource called `name`, and notes a failure.
pub fn handle_xds<F: FnOnce() -> Result<(), RejectReason>>(
    ctx: &mut HandlerContext,
    name: String,
    f: F,
)
    requires
        f.requires(()),
    ensures
        exists|result: Result<(), RejectReason>| #[trigger]
            f.ensures((), result) && final(ctx)@ == noted(
                old(ctx)@,
                name@,
                reason_of(result),
            ),
{
    let result: Result<(), RejectReason> = f();
    if let Err(e) = result {
        ctx.reject(name, e);
    }
}

impl DanglingName {
    /// The message.
    pub open spec fn text(self) -> Seq<char> {
        "removed name "@ + self.name@ + " with ip "@ + ip_text::ip_text(self.ip)
            + ", but was not found in workload map"@
    }

    /// The message.
    pub fn to_string(&self) -> (r: String)
        ensures
            r@ == self.text(),
    {
        let mut out: String = String::new();
        out.append("removed name ");
        out.append(self.name.as_str());
        out.append(" with ip ");
        ip_text::push_ip(&mut out, self.ip);
        out.append(", but was not found in workload map");
        assert(out@ =~= self.text());
        out
    }
}

impl Default for WorkloadInformation {
    fn default() -> (r: WorkloadInformation)
        ensures
            r.wf(),
            r@ == InformationView::empty(),
    {
        let r: WorkloadInformation = WorkloadInformation {
            workloads: IpMap::new(),
            name_index: NameIndex::new(),
            vips: VipTable::new(),
        };
        assert(r@ =~= InformationView::empty());
        r
    }
}

impl WorkloadInformation {
    /// The parts are well formed, and what they hold is sound.
    pub closed spec fn wf(self) -> bool {
        &&& self.name_index.wf()
        &&& self.vips.wf()
        &&& self@.sound()
    }

    /// What a well formed value knows is sound.
    pub proof fn lemma_wf(self)
        requires
            self.wf(),
        ensures
            self@.sound(),
    {
    }

    /// Takes a workload in.
    pub fn insert(&mut self, w: Workload)
        requires
            old(self).wf(),
        ensures
            final(self).wf(),
            final(self)@ == old(self)@.inserted(w@),
    {
        let ip: IpAddr = w.workload_ip;
        let name: String = w.resource_name();
        self.workloads.insert(ip, w);
        self.name_index.insert(name, ip);
        assert(self@ =~= old(self)@.inserted(w@));
    }

    /// Looks a dangling name up.
    pub fn find_dangling(&self, name: &String) -> (r: Option<DanglingName>)
        requires
            self.wf(),
        ensures
            match r {
                Some(d) => self@.dangling(name@) && d.name@ == name@ && d.ip
                    == self@.name_index[name@],
                None => !self@.dangling(name@),
            },
    {
        match self.name_index.get(name.as_str()) {
            Some(ip) => {
                match self.workloads.get(&ip) {
                    Some(_) => None,
                    None => Some(DanglingName { name: name.clone(), ip }),
                }
            },
            None => None,
        }
    }

    /// Forgets a name and the workload at its address.
    pub fn remove(&mut self, name: String)
        requires
            old(self).wf(),
            !old(self)@.dangling(name@),
        ensures
            final(self).wf(),
            final(self)@ == old(self)@.removed(name@),
    {
        if let Some(ip) = self.name_index.remove(name.as_str()) {
            let _workload: Option<Workload> = self.workloads.remove(&ip);
        }
        assert(self@ =~= old(self)@.removed(name@));
    }

    /// The workload at an address.
    pub fn find_workload(&self, addr: &IpAddr) -> (r: Option<&Workload>)
        ensures
            match r {
                Some(w) => self@.workloads.contains_key(*addr) && self@.workloads[*addr] == w@,
                None => !self@.workloads.contains_key(*addr),
            },
    {
        self.workloads.get(addr)
    }

    /// Fills the gateway in.
    pub fn set_gateway_ip(us: &mut Upstream)
        ensures
            final(us)@ == with_gateway(old(us)@),
    {
        let mut ip: IpAddr = us.workload.workload_ip;
        if let Some(waypoint) = us.workload.waypoint_address {
            ip = waypoint;
        }
        if us.workload.gateway_ip.is_none() {
            us.workload.gateway_ip =
            Some(
                match us.workload.protocol {
                    Protocol::Hbone => SocketAddr::new(ip, HBONE_PORT),
                    Protocol::Tcp => SocketAddr::new(us.workload.workload_ip, us.port),
                },
            );
        }
    }

    /// Finds the upstream for an address; tells whether a virtual address led to it.
    pub fn find_upstream(&self, addr: SocketAddr) -> (r: (Upstream, bool))
        requires
            self.wf(),
        ensures
            self@.resolves(addr, r.0@, r.1),
    {
        if let Some(set) = self.vips.get(&addr) {
            if let Some(found) = set.any() {
                let mut us: Upstream = found.clone();
                assert(self@.vips[addr].contains(us@));
                Self::set_gateway_ip(&mut us);
                return (us, true);
            }
        }
        if let Some(wl) = self.workloads.get(&addr.ip()) {
            let mut us: Upstream = Upstream { workload: wl.clone(), port: addr.port() };
            Self::set_gateway_ip(&mut us);
            return (us, false);
        }
        (
            Upstream {
                port: addr.port(),
                workload: Workload {
                    workload_ip: addr.ip(),
                    waypoint_address: None,
                    gateway_ip: Some(addr),
                    protocol: Protocol::Tcp,
                    name: String::new(),
                    namespace: String::new(),
                    node: String::new(),
                    service_account: String::new(),
                    native_hbone: false,
                },
            },
            false,
        )
    }

    /// Serves the workload at `ip` on each of the ports.
    fn add_ports(&mut self, workload: &Workload, ip: IpAddr, ports: &Vec<Port>)
        requires
            old(self).wf(),
        ensures
            final(self).wf(),
            final(self)@ == (InformationView {
                vips: with_ports(old(self)@.vips, workload@, ip, ports@),
                ..old(self)@
            }),
    {
        let mut i: usize = 0;
        while i < ports.len()
            invariant
                i <= ports@.len(),
                self.wf(),
                self.workloads == old(self).workloads,
                self.name_index == old(self).name_index,
                self.vips@ == with_ports(old(self).vips@, workload@, ip, ports@.take(i as int)),
            decreases ports@.len() - i,
        {
            let port: Port = ports[i];
            assert(ports@.take(i + 1).drop_last() =~= ports@.take(i as int));
            let us: Upstream = Upstream {
                workload: workload.clone(),
                port: (port.target_port % 0x1_0000) as u16,
            };
            let ghost before = self@;
            self.vips.add_upstream(ip, (port.service_port % 0x1_0000) as u16, us);
            assert forall|addr: SocketAddr| #[trigger]
                self@.vips.contains_key(addr) implies self@.vips[addr] != Set::<
                UpstreamView,
            >::empty() by {
                if addr == service_addr(ip, port) {
                    assert(self@.vips[addr].contains(us@));
                } else {
                    assert(before.vips.contains_key(addr));
                }
            }
            i = i + 1;
        }
        assert(ports@.take(i as int) =~= ports@);
    }

    /// Serves the workload on each of the virtual addresses, up to the first that cannot be
    /// read.
    fn add_virtual_ips(&mut self, workload: &Workload, virtual_ips: &Vec<VirtualIp>) -> (r: Result<
        (),
        RejectReason,
    >)
        requires
            old(self).wf(),
        ensures
            final(self).wf(),
            final(self)@ == (InformationView {
                vips: with_virtual_ips(
                    old(self)@.vips,
                    workload@,
                    virtual_ips@.take(readable(virtual_ips@) as int),
                ),
                ..old(self)@
            }),
            reason_of(r) == (if readable(virtual_ips@) < virtual_ips@.len() {
                Some(RejectReasonView::VirtualIp(AddrParseError))
            } else {
                None
            }),
    {
        let mut i: usize = 0;
        while i < virtual_ips.len()
            invariant
                i <= virtual_ips@.len(),
                self.wf(),
                self@.workloads == old(self)@.workloads,
                self@.name_index == old(self)@.name_index,
                self@.vips == with_virtual_ips(
                    old(self)@.vips,
                    workload@,
                    virtual_ips@.take(i as int),
                ),
                readable(virtual_ips@.take(i as int)) == i,
            decreases virtual_ips@.len() - i,
        {
            let entry: &VirtualIp = &virtual_ips[i];
            assert(virtual_ips@.take(i + 1).drop_last() =~= virtual_ips@.take(i as int));
            match IpAddr::parse(entry.vip.as_str()) {
                Ok(ip) => {
                    self.add_ports(workload, ip, &entry.ports);
                },
                Err(e) => {
                    proof {
                        lemma_readable_stops(virtual_ips@, i as int);
                    }
                    return Err(RejectReason::VirtualIp(e));
                },
            }
            i = i + 1;
        }
        assert(virtual_ips@.take(i as int) =~= virtual_ips@);
        Ok(())
    }

    /// Takes one resource in.
    pub fn update(&mut self, r: &XdsResource) -> (result: Result<(), RejectReason>)
        requires
            old(self).wf(),
        ensures
            final(self).wf(),
            final(self)@ == old(self)@.updated(*r),
            reason_of(result) == refusal(XdsUpdate::Update(*r)),
    {
        match Workload::try_from(&r.resource) {
            Ok(workload) => {
                self.insert(workload.clone());
                self.add_virtual_ips(&workload, &r.resource.virtual_ips)
            },
            Err(e) => Err(RejectReason::Workload(e)),
        }
    }

    /// Handles updates in turn and notes which are refused; stops before the first that
    /// removes a dangling name.
    pub fn try_handle(&mut self, ctx: &mut HandlerContext, updates: Vec<XdsUpdate>) -> (r: Result<
        (),
        DanglingName,
    >)
        requires
            old(self).wf(),
        ensures
            final(self).wf(),
            match r {
                Ok(_) => {
                    &&& old(self)@.none_stuck(updates@)
                    &&& final(self)@ == old(self)@.after_all(updates@)
                    &&& final(ctx)@ == noted_all(old(ctx)@, updates@)
                },
                Err(d) => exists|n: int|
                    {
                        &&& 0 <= n < updates@.len()
                        &&& old(self)@.none_stuck(#[trigger] updates@.take(n))
                        &&& final(self)@ == old(self)@.after_all(updates@.take(n))
                        &&& final(ctx)@ == noted_all(old(ctx)@, updates@.take(n))
                        &&& final(self)@.stuck(updates@[n])
                        &&& d.name@ == updates@[n].spec_name()
                        &&& d.ip == final(self)@.name_index[d.name@]
                    },
            },
    {
        let mut i: usize = 0;
        while i < updates.len()
            invariant
                i <= updates@.len(),
                self.wf(),
                old(self)@.none_stuck(updates@.take(i as int)),
                self@ == old(self)@.after_all(updates@.take(i as int)),
                ctx@ == noted_all(old(ctx)@, updates@.take(i as int)),
            decreases updates@.len() - i,
        {
            let update: &XdsUpdate = &updates[i];
            let ghost next = updates@.take(i + 1);
            assert(next.drop_last() =~= updates@.take(i as int));
            let result: Result<(), RejectReason> = match update {
                XdsUpdate::Update(r) => self.update(r),
                XdsUpdate::Remove(name) => {
                    if let Some(d) = self.find_dangling(name) {
                        return Err(d);
                    }
                    self.remove(name.clone());
                    Ok(())
                },
            };
            let outcome = move || -> (r: Result<(), RejectReason>)
                ensures
                    (r == result),
            {
                result
            };
            handle_xds(ctx, update.name(), outcome);
            assert(old(self)@.none_stuck(next)) by {
                assert forall|k: int| 0 <= k < next.len() implies !old(self)@.after_all(
                    #[trigger] next.take(k),
                ).stuck(next[k]) by {
                    assert(next.take(k) =~= updates@.take(k));
                    if k < i {
                        assert(updates@.take(i as int).take(k) =~= updates@.take(k));
                    }
                }
            }
            i = i + 1;
        }
        assert(updates@.take(i as int) =~= updates@);
        Ok(())
    }

    /// Handles updates in turn and notes which are refused.
    pub fn handle(&mut self, ctx: &mut HandlerContext, updates: Vec<XdsUpdate>)
        requires
            old(self).wf(),
            old(self)@.none_stuck(updates@),
        ensures
            final(self).wf(),
            final(self)@ == old(self)@.after_all(updates@),
            final(ctx)@ == noted_all(old(ctx)@, updates@),
    {
        let r: Result<(), DanglingName> = self.try_handle(ctx, updates);
    }

    /// The workloads and their addresses, in no particular order.
    pub fn workload_entries(&self) -> (r: Vec<(IpAddr, &Workload)>)
        ensures
            forall|i: int, j: int| 0 <= i < j < r@.len() ==> r@[i].0 != r@[j].0,
            forall|i: int|
                0 <= i < r@.len() ==> self@.workloads.contains_key((#[trigger] r@[i]).0)
                    && self@.workloads[r@[i].0] == r@[i].1@,
            forall|ip: IpAddr| #[trigger]
                self@.workloads.contains_key(ip) ==> exists|i: int|
                    0 <= i < r@.len() && r@[i].0 == ip,
    {
        self.workloads.entries()
    }

    /// The names and the addresses that they stand for, in no particular order.
    pub fn name_entries(&self) -> (r: &Vec<NameEntry>)
        requires
            self.wf(),
        ensures
            forall|i: int, j: int| 0 <= i < j < r@.len() ==> r@[i].name@ != r@[j].name@,
            forall|i: int|
                0 <= i < r@.len() ==> self@.name_index.contains_key((#[trigger] r@[i]).name@)
                    && self@.name_index[r@[i].name@] == r@[i].ip,
            forall|name: Seq<char>| #[trigger]
                self@.name_index.contains_key(name) ==> exists|i: int|
                    0 <= i < r@.len() && r@[i].name@ == name,
    {
        self.name_index.entries()
    }

    /// The virtual addresses and what is served at them, in no particular order.
    pub fn vip_entries(&self) -> (r: Vec<(SocketAddr, &UpstreamSet)>)
        requires
            self.wf(),
        ensures
            forall|i: int, j: int| 0 <= i < j < r@.len() ==> r@[i].0 != r@[j].0,
            forall|i: int|
                0 <= i < r@.len() ==> {
                    &&& self@.vips.contains_key((#[trigger] r@[i]).0)
                    &&& self@.vips[r@[i].0] == r@[i].1@
                    &&& r@[i].1.wf()
                },
            forall|addr: SocketAddr| #[trigger]
                self@.vips.contains_key(addr) ==> exists|i: int|
                    0 <= i < r@.len() && (#[trigger] r@[i]).0 == addr,
    {
        self.vips.entries()
    }

    /// Takes workloads in, one after the other.
    pub fn insert_all(&mut self, workloads: Vec<Workload>)
        requires
            old(self).wf(),
        ensures
            final(self).wf(),
            final(self)@ == old(self)@.inserted_all(workloads@),
    {
        let mut i: usize = 0;
        while i < workloads.len()
            invariant
                i <= workloads@.len(),
                self.wf(),
                self@ == old(self)@.inserted_all(workloads@.take(i as int)),
            decreases workloads@.len() - i,
        {
            assert(workloads@.take(i + 1).drop_last() =~= workloads@.take(i as int));
            self.insert(workloads[i].clone());
            i = i + 1;
        }
        assert(workloads@.take(i as int) =~= workloads@);
    }
}

/// A virtual address that cannot be read ends the readable ones.
pub proof fn lemma_readable_stops(virtual_ips: Seq<VirtualIp>, i: int)
    requires
        0 <= i < virtual_ips.len(),
        readable(virtual_ips.take(i)) == i,
        ip_parse::ip_of_text(virtual_ips[i].vip@) is None,
    ensures
        readable(virtual_ips) == i,
    decreases virtual_ips.len(),
{
    let before = virtual_ips.drop_last();
    if i == before.len() {
        assert(before =~= virtual_ips.take(i));
    } else {
        assert(before.take(i) =~= virtual_ips.take(i));
        lemma_readable_stops(before, i);
    }
}

} // verus!
