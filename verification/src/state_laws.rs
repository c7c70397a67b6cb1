//! What each operation does to what is known, and what a lookup gives, value by value.

use crate::information;
use crate::information::{InformationView, WorkloadInformation};
use crate::ip_parse;
use crate::laws;
use crate::net;
use crate::net::{AddrParseError, IpAddr, SocketAddr};
use crate::workload::{Protocol, Upstream, UpstreamView, Workload, WorkloadView};
use crate::xds::{RejectReason, RejectReasonView, RejectedView, VirtualIp, XdsResource, XdsUpdate};
use vstd::prelude::*;

verus! {

/// Whether `us` is `found` with its gateway filled in: the port and every other field are
/// those that were found; a gateway that was there stays; tunnelled traffic goes to the
/// waypoint, or where there is none to the workload, at port 15008; other traffic goes to the
/// workload at the port that is wanted.
pub open spec fn goes_by_gateway(us: UpstreamView, found: UpstreamView) -> bool {
    let w = found.workload;
    let g = us.workload.gateway_ip;
    &&& us.port == found.port
    &&& us.workload.workload_ip == w.workload_ip
    &&& us.workload.waypoint_address == w.waypoint_address
    &&& us.workload.protocol == w.protocol
    &&& us.workload.name == w.name
    &&& us.workload.namespace == w.namespace
    &&& us.workload.service_account == w.service_account
    &&& us.workload.node == w.node
    &&& us.workload.native_hbone == w.native_hbone
    &&& w.gateway_ip is Some ==> g == w.gateway_ip
    &&& w.gateway_ip is None && w.protocol == Protocol::Tcp ==> g == Some(
        net::socket(w.workload_ip, found.port),
    )
    &&& w.gateway_ip is None && w.protocol == Protocol::Hbone ==> (
    w.waypoint_address matches Some(p) ==> g == Some(net::socket(p, 15008)))
    &&& w.gateway_ip is None && w.protocol == Protocol::Hbone && w.waypoint_address is None ==> g
        == Some(net::socket(w.workload_ip, 15008))
}

/// Filling a gateway in is what [`goes_by_gateway`] says.
pub proof fn law_gateway_is_filled_in(us: UpstreamView)
    ensures
        goes_by_gateway(information::with_gateway(us), us),
{
}

/// Where no virtual address is known and a workload stands at the IP address, that workload is
/// the upstream, whole, on the port that was asked for.
pub proof fn law_workload_resolves(s: InformationView, addr: SocketAddr, us: UpstreamView, vip: bool)
    requires
        s.resolves(addr, us, vip),
        !s.vips.contains_key(addr),
        s.workloads.contains_key(addr.spec_ip()),
    ensures
        !vip,
        goes_by_gateway(
            us,
            UpstreamView { workload: s.workloads[addr.spec_ip()], port: addr.spec_port() },
        ),
{
}

/// Where a virtual address is known, one of the upstreams served at it is the upstream, whole.
pub proof fn law_virtual_address_resolves(
    s: InformationView,
    addr: SocketAddr,
    us: UpstreamView,
    vip: bool,
)
    requires
        s.resolves(addr, us, vip),
        s.vips.contains_key(addr),
    ensures
        vip,
        exists|found: UpstreamView| #[trigger]
            s.vips[addr].contains(found) && goes_by_gateway(us, found),
{
    let found = choose|u: UpstreamView| #[trigger]
        s.vips[addr].contains(u) && us == information::with_gateway(u);
    assert(s.vips[addr].contains(found) && goes_by_gateway(us, found));
}

/// Where nothing is known, the upstream is the address itself, over TCP, with nothing else
/// said of it.
pub proof fn law_passes_through(s: InformationView, addr: SocketAddr, us: UpstreamView, vip: bool)
    requires
        s.resolves(addr, us, vip),
        !s.vips.contains_key(addr),
        !s.workloads.contains_key(addr.spec_ip()),
    ensures
        !vip,
        us.port == addr.spec_port(),
        us.workload.workload_ip == addr.spec_ip(),
        us.workload.gateway_ip == Some(addr),
        us.workload.protocol == Protocol::Tcp,
        us.workload.waypoint_address is None,
        us.workload.name.len() == 0,
        us.workload.namespace.len() == 0,
        us.workload.service_account.len() == 0,
        us.workload.node.len() == 0,
        !us.workload.native_hbone,
{
}

/// What [`WorkloadInformation::find_upstream`] gives: by virtual address, by workload, or the
/// address itself, in that order.
pub proof fn law_find_upstream_call(
    info: WorkloadInformation,
    addr: SocketAddr,
    r: (Upstream, bool),
)
    requires
        call_ensures(WorkloadInformation::find_upstream, (&info, addr), r),
    ensures
        r.1 == info@.vips.contains_key(addr),
        r.1 ==> exists|found: UpstreamView| #[trigger]
            info@.vips[addr].contains(found) && goes_by_gateway(r.0@, found),
        !r.1 && info@.workloads.contains_key(addr.spec_ip()) ==> goes_by_gateway(
            r.0@,
            UpstreamView { workload: info@.workloads[addr.spec_ip()], port: addr.spec_port() },
        ),
        !r.1 && !info@.workloads.contains_key(addr.spec_ip()) ==> r.0.port == addr.spec_port()
            && r.0.workload.workload_ip == addr.spec_ip() && r.0.workload.gateway_ip == Some(addr)
            && r.0.workload.protocol == Protocol::Tcp,
{
    if info@.vips.contains_key(addr) {
        law_virtual_address_resolves(info@, addr, r.0@, r.1);
    } else if info@.workloads.contains_key(addr.spec_ip()) {
        law_workload_resolves(info@, addr, r.0@, r.1);
    } else {
        law_passes_through(info@, addr, r.0@, r.1);
    }
}

/// What [`WorkloadInformation::find_workload`] gives is what stands at the address.
pub proof fn law_find_workload_call(
    info: WorkloadInformation,
    ip: IpAddr,
    r: Option<&Workload>,
)
    requires
        call_ensures(WorkloadInformation::find_workload, (&info, &ip), r),
    ensures
        r is Some == info@.workloads.contains_key(ip),
        r matches Some(w) ==> info@.workloads[ip] == w@,
{
}

/// The name that is kept for a workload, written out.
pub open spec fn kept_name(name: Seq<char>, namespace: Seq<char>) -> Seq<char> {
    name + seq!['/'] + namespace
}

/// The kept name is the resource name.
proof fn lemma_kept_name(w: WorkloadView)
    ensures
        w.resource_name() == kept_name(w.name, w.namespace),
{
    reveal_strlit("/");
    assert("/"@ =~= seq!['/']);
}

/// Inserting touches the address of the workload and its name, and nothing else: both lead to
/// the workload, and whatever stood at other addresses and under other names is as it was.
pub proof fn law_insert(
    s: InformationView,
    w: WorkloadView,
    ip: IpAddr,
    name: Seq<char>,
)
    ensures
        ({
            let t = s.inserted(w);
            let own = kept_name(w.name, w.namespace);
            &&& t.workloads.contains_key(w.workload_ip) && t.workloads[w.workload_ip] == w
            &&& t.name_index.contains_key(own) && t.name_index[own] == w.workload_ip
            &&& ip != w.workload_ip ==> t.workloads.contains_key(ip) == s.workloads.contains_key(ip)
                && t.workloads[ip] == s.workloads[ip]
            &&& name != own ==> t.name_index.contains_key(name) == s.name_index.contains_key(name)
                && t.name_index[name] == s.name_index[name]
            &&& t.vips == s.vips
        }),
{
    lemma_kept_name(w);
}

/// After a workload was inserted, removing its name, a slash and its namespace leaves no
/// workload at its address, and that name stands for nothing.
pub proof fn law_insert_then_remove(s: InformationView, w: WorkloadView, ip: IpAddr)
    ensures
        ({
            let own = w.name + seq!['/'] + w.namespace;
            let t = s.inserted(w).removed(own);
            &&& !s.inserted(w).dangling(own)
            &&& !t.workloads.contains_key(w.workload_ip)
            &&& !t.name_index.contains_key(own)
            &&& ip != w.workload_ip ==> t.workloads.contains_key(ip) == s.workloads.contains_key(ip)
                && t.workloads[ip] == s.workloads[ip]
        }),
{
    lemma_kept_name(w);
}

/// Removing a name takes it out, with the workload at the address that it stood for, and
/// nothing else; a name that stands for nothing changes nothing.
pub proof fn law_remove(s: InformationView, name: Seq<char>, other: Seq<char>, ip: IpAddr)
    ensures
        ({
            let t = s.removed(name);
            &&& !t.name_index.contains_key(name)
            &&& s.name_index.contains_key(name) ==> !t.workloads.contains_key(s.name_index[name])
            &&& other != name ==> t.name_index.contains_key(other) == s.name_index.contains_key(
                other,
            ) && t.name_index[other] == s.name_index[other]
            &&& !(s.name_index.contains_key(name) && s.name_index[name] == ip)
                ==> t.workloads.contains_key(ip) == s.workloads.contains_key(ip) && t.workloads[ip]
                == s.workloads[ip]
            &&& t.vips == s.vips
            &&& !s.name_index.contains_key(name) ==> t == s
        }),
{
}

/// A name dangles where it stands for an address without a workload, and only removing such a
/// name is stuck.
pub proof fn law_dangling(s: InformationView, name: Seq<char>, update: XdsUpdate)
    ensures
        s.dangling(name) <==> s.name_index.contains_key(name) && !s.workloads.contains_key(
            s.name_index[name],
        ),
        match update {
            XdsUpdate::Update(_) => !s.stuck(update),
            XdsUpdate::Remove(n) => s.stuck(update) <==> s.name_index.contains_key(n@)
                && !s.workloads.contains_key(s.name_index[n@]),
        },
{
}

/// Whether, of a resource that is the workload `w`, the port `j` of the virtual address `i`
/// makes `us` served at `addr`: the workload whole, with the last sixteen bits of the target
/// port, at the last sixteen bits of the service port.
pub open spec fn brings(
    r: XdsResource,
    w: WorkloadView,
    i: int,
    j: int,
    addr: SocketAddr,
    us: UpstreamView,
) -> bool {
    let entry = r.resource.virtual_ips@[i];
    &&& 0 <= i < r.resource.virtual_ips@.len()
    &&& 0 <= j < entry.ports@.len()
    &&& forall|k: int|
        0 <= k <= i ==> ip_parse::ip_of_text((#[trigger] r.resource.virtual_ips@[k]).vip@) is Some
    &&& ip_parse::ip_of_text(entry.vip@) == Some(addr.spec_ip())
    &&& addr == net::socket(addr.spec_ip(), addr.spec_port())
    &&& addr.spec_port() == entry.ports@[j].service_port as int % 65536
    &&& us.port == entry.ports@[j].target_port as int % 65536
    &&& us.workload == w
}

/// After an update whose resource is a workload, what is served is what was served before and
/// what the readable virtual addresses bring, each on each of its ports, and nothing else.
pub proof fn law_update_serves_exactly(
    s: InformationView,
    r: XdsResource,
    addr: SocketAddr,
    us: UpstreamView,
)
    requires
        WorkloadView::of_xds(r.resource) is Ok,
    ensures
        ({
            let w = WorkloadView::of_xds(r.resource)->Ok_0;
            let t = s.after(XdsUpdate::Update(r));
            (t.vips.contains_key(addr) && t.vips[addr].contains(us)) <==> ((s.vips.contains_key(
                addr,
            ) && s.vips[addr].contains(us)) || exists|i: int, j: int| brings(r, w, i, j, addr, us))
        }),
{
    let w = WorkloadView::of_xds(r.resource)->Ok_0;
    let all = r.resource.virtual_ips@;
    let n = information::readable(all) as int;
    let taken = all.take(n);
    laws::law_readable(all);
    laws::law_virtual_ips_serve(s.vips, w, taken, addr, us);
    if laws::serves(w, taken, addr, us) {
        let v = choose|v: VirtualIp| #[trigger]
            taken.contains(v) && laws::port_serves(
                w,
                ip_parse::ip_of_text(v.vip@)->0,
                v.ports@,
                addr,
                us,
            );
        let i = choose|i: int| 0 <= i < taken.len() && taken[i] == v;
        assert(all[i] == v);
        let ip = ip_parse::ip_of_text(v.vip@)->0;
        let j = choose|j: int|
            0 <= j < v.ports@.len() && addr == information::service_addr(
                ip,
                #[trigger] v.ports@[j],
            ) && us == information::target(w, v.ports@[j]);
        assert(brings(r, w, i, j, addr, us));
    }
    if exists|i: int, j: int| brings(r, w, i, j, addr, us) {
        let (i, j) = choose|i: int, j: int| brings(r, w, i, j, addr, us);
        let v = all[i];
        if n <= i {
            assert(ip_parse::ip_of_text(all[n].vip@) is Some);
        }
        assert(taken[i] == v);
        assert(taken.contains(v));
        let ip = ip_parse::ip_of_text(v.vip@)->0;
        assert(addr == information::service_addr(ip, v.ports@[j]));
        assert(us == information::target(w, v.ports@[j]));
        assert(laws::port_serves(w, ip, v.ports@, addr, us));
    }
}

/// An update makes an address known only by serving something there, and forgets none.
pub proof fn law_update_known_addresses(s: InformationView, update: XdsUpdate, addr: SocketAddr)
    ensures
        s.vips.contains_key(addr) ==> s.after(update).vips.contains_key(addr),
        s.after(update).vips.contains_key(addr) && !s.vips.contains_key(addr) ==> exists|
            us: UpstreamView,
        | #[trigger]
            s.after(update).vips[addr].contains(us),
{
    if let XdsUpdate::Update(r) = update {
        if let Ok(w) = WorkloadView::of_xds(r.resource) {
            let all = r.resource.virtual_ips@;
            let taken = all.take(information::readable(all) as int);
            laws::lemma_virtual_ips_keys(s.vips, w, taken, addr);
            let t = s.after(update);
            if t.vips.contains_key(addr) && !s.vips.contains_key(addr) {
                let us = choose|us: UpstreamView| laws::offers(t.vips, addr, us);
                assert(t.vips[addr].contains(us));
            }
        }
    }
}

/// An update does to workloads and names what inserting its workload does, and a resource that
/// is no workload does nothing at all; a removal removes.
pub proof fn law_update_inserts(s: InformationView, r: XdsResource, name: String)
    ensures
        match WorkloadView::of_xds(r.resource) {
            Ok(w) => {
                let t = s.after(XdsUpdate::Update(r));
                &&& t.workloads == s.workloads.insert(w.workload_ip, w)
                &&& t.name_index == s.name_index.insert(
                    kept_name(w.name, w.namespace),
                    w.workload_ip,
                )
            },
            Err(_) => s.after(XdsUpdate::Update(r)) == s,
        },
        s.after(XdsUpdate::Remove(name)) == s.removed(name@),
{
    if let Ok(w) = WorkloadView::of_xds(r.resource) {
        lemma_kept_name(w);
    }
}

/// An update is refused exactly where its resource is no workload, for that reason, or else
/// where one of its virtual addresses cannot be read. A removal never is.
pub proof fn law_refusal(r: XdsResource, name: String)
    ensures
        match WorkloadView::of_xds(r.resource) {
            Err(e) => information::refusal(XdsUpdate::Update(r)) == Some(
                RejectReasonView::Workload(e),
            ),
            Ok(_) => {
                let all = r.resource.virtual_ips@;
                let fine = forall|i: int|
                    0 <= i < all.len() ==> ip_parse::ip_of_text((#[trigger] all[i]).vip@) is Some;
                &&& fine ==> information::refusal(XdsUpdate::Update(r)) is None
                &&& !fine ==> information::refusal(XdsUpdate::Update(r)) == Some(
                    RejectReasonView::VirtualIp(AddrParseError),
                )
            },
        },
        information::refusal(XdsUpdate::Remove(name)) is None,
{
    laws::law_readable(r.resource.virtual_ips@);
}

/// A failure is noted at the end, with its name and reason; success is not noted.
pub proof fn law_noted(
    rejects: Seq<RejectedView>,
    name: Seq<char>,
    reason: RejectReasonView,
    e: RejectReason,
)
    ensures
        information::noted(rejects, name, None) == rejects,
        information::noted(rejects, name, Some(reason)) == rejects + seq![
            RejectedView { name, reason },
        ],
        information::reason_of(Ok(())) is None,
        information::reason_of(Err(e)) == Some(e@),
{
    assert(information::noted(rejects, name, Some(reason)) =~= rejects + seq![
        RejectedView { name, reason },
    ]);
}

/// A batch without updates does nothing, and a batch of one is that update.
pub proof fn law_small_batches(s: InformationView, rejects: Seq<RejectedView>, update: XdsUpdate)
    ensures
        s.after_all(Seq::empty()) == s,
        s.none_stuck(Seq::empty()),
        information::noted_all(rejects, Seq::empty()) == rejects,
        s.after_all(seq![update]) == s.after(update),
        s.none_stuck(seq![update]) <==> !s.stuck(update),
        information::noted_all(rejects, seq![update]) == match information::refusal(update) {
            Some(reason) => rejects + seq![RejectedView { name: update.spec_name(), reason }],
            None => rejects,
        },
{
    let one = seq![update];
    assert(one.drop_last() =~= Seq::empty());
    reveal_with_fuel(InformationView::after_all, 2);
    reveal_with_fuel(information::noted_all, 2);
    assert(one.take(0) =~= Seq::empty());
    if s.none_stuck(one) {
        assert(!s.after_all(one.take(0)).stuck(one[0]));
    }
    if let Some(reason) = information::refusal(update) {
        let r = RejectedView { name: update.spec_name(), reason };
        assert(rejects.push(r) =~= rejects + seq![r]);
    }
}

/// Loading workloads keeps the rest: what stands at an address that none of them has, or under
/// a name that none of them has, is as it was, and so is everything that is served.
pub proof fn law_loading_keeps(
    s: InformationView,
    workloads: Seq<Workload>,
    ip: IpAddr,
    name: Seq<char>,
)
    ensures
        ({
            let t = s.inserted_all(workloads);
            &&& (forall|i: int|
                0 <= i < workloads.len() ==> (#[trigger] workloads[i]).workload_ip != ip)
                ==> t.workloads.contains_key(ip) == s.workloads.contains_key(ip) && t.workloads[ip]
                == s.workloads[ip]
            &&& (forall|i: int|
                0 <= i < workloads.len() ==> kept_name(
                    (#[trigger] workloads[i]).name@,
                    workloads[i].namespace@,
                ) != name) ==> t.name_index.contains_key(name) == s.name_index.contains_key(name)
                && t.name_index[name] == s.name_index[name]
            &&& t.vips == s.vips
        }),
    decreases workloads.len(),
{
    if workloads.len() > 0 {
        let before = workloads.drop_last();
        law_loading_keeps(s, before, ip, name);
        lemma_kept_name(workloads.last()@);
        assert(forall|i: int| 0 <= i < before.len() ==> before[i] == workloads[i]);
        assert(workloads.last() == workloads[workloads.len() - 1]);
    }
}

/// Of workloads that are loaded together, the last one at an address is found there, and the
/// last one of a name is the one that the name stands for.
pub proof fn law_loading_finds(s: InformationView, workloads: Seq<Workload>, i: int)
    requires
        0 <= i < workloads.len(),
    ensures
        ({
            let t = s.inserted_all(workloads);
            let w = workloads[i];
            &&& (forall|k: int|
                i < k < workloads.len() ==> (#[trigger] workloads[k]).workload_ip != w.workload_ip)
                ==> t.workloads.contains_key(w.workload_ip) && t.workloads[w.workload_ip] == w@
            &&& (forall|k: int|
                i < k < workloads.len() ==> kept_name(
                    (#[trigger] workloads[k]).name@,
                    workloads[k].namespace@,
                ) != kept_name(w.name@, w.namespace@)) ==> t.name_index.contains_key(
                kept_name(w.name@, w.namespace@),
            ) && t.name_index[kept_name(w.name@, w.namespace@)] == w.workload_ip
        }),
    decreases workloads.len(),
{
    let before = workloads.drop_last();
    lemma_kept_name(workloads.last()@);
    assert(workloads.last() == workloads[workloads.len() - 1]);
    if i < before.len() {
        assert(forall|k: int| 0 <= k < before.len() ==> before[k] == workloads[k]);
        law_loading_finds(s, before, i);
    }
}

/// Loading nothing changes nothing, and loading two lists is loading the one that they make.
pub proof fn law_loading_joins(s: InformationView, a: Seq<Workload>, b: Seq<Workload>)
    ensures
        s.inserted_all(Seq::empty()) == s,
        s.inserted_all(a + b) == s.inserted_all(a).inserted_all(b),
    decreases b.len(),
{
    if b.len() == 0 {
        assert(a + b =~= a);
    } else {
        assert((a + b).drop_last() =~= a + b.drop_last());
        law_loading_joins(s, a, b.drop_last());
    }
}

/// Nothing is known to start with.
pub proof fn law_nothing_known(ip: IpAddr, name: Seq<char>, addr: SocketAddr)
    ensures
        !InformationView::empty().workloads.contains_key(ip),
        !InformationView::empty().name_index.contains_key(name),
        !InformationView::empty().vips.contains_key(addr),
{
}

} // verus!
