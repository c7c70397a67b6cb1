//! What holds across the operations.

use crate::digits;
use crate::information;
use crate::information::InformationView;
use crate::ip_parse;
use crate::net;
use crate::net::{IpAddr, SocketAddr};
use crate::workload;
use crate::workload::{Protocol, UpstreamView, Workload, WorkloadView};
use crate::xds::{Port, RejectReasonView, RejectedView, VirtualIp, XdsResource, XdsUpdate};
use vstd::arithmetic::power::*;
use vstd::prelude::*;

verus! {

/// A workload that was inserted is found at its address; what stands at other addresses
/// stays.
pub proof fn law_inserted_is_found(s: InformationView, w: WorkloadView, ip: IpAddr)
    ensures
        s.inserted(w).workloads.contains_key(w.workload_ip),
        s.inserted(w).workloads[w.workload_ip] == w,
        ip != w.workload_ip ==> {
            &&& s.inserted(w).workloads.contains_key(ip) == s.workloads.contains_key(ip)
            &&& s.workloads.contains_key(ip) ==> s.inserted(w).workloads[ip] == s.workloads[ip]
        },
{
}

/// A workload that was just inserted can be removed by its name, and nothing stands at its
/// address then; all else is as it was, but for what the workload took the place of.
pub proof fn law_inserted_is_removed(s: InformationView, w: WorkloadView)
    ensures
        !s.inserted(w).dangling(w.resource_name()),
        s.inserted(w).removed(w.resource_name()) == (InformationView {
            workloads: s.workloads.remove(w.workload_ip),
            name_index: s.name_index.remove(w.resource_name()),
            vips: s.vips,
        }),
{
    assert(s.inserted(w).removed(w.resource_name()).workloads =~= s.workloads.remove(
        w.workload_ip,
    ));
    assert(s.inserted(w).removed(w.resource_name()).name_index =~= s.name_index.remove(
        w.resource_name(),
    ));
}

/// Removing a name twice is removing it once, and a name that was removed never dangles.
pub proof fn law_removed_once(s: InformationView, name: Seq<char>)
    ensures
        s.removed(name).removed(name) == s.removed(name),
        !s.removed(name).dangling(name),
{
}

/// What is served at virtual addresses outlives the workload: neither inserting nor removing
/// touches it.
pub proof fn law_virtual_addresses_stay(s: InformationView, w: WorkloadView, name: Seq<char>)
    ensures
        s.inserted(w).vips == s.vips,
        s.removed(name).vips == s.vips,
{
}

/// Filling a gateway in gives one, touches nothing else, keeps one that is there, and is
/// done after the first time.
pub proof fn law_gateway(us: UpstreamView)
    ensures
        information::with_gateway(us).workload.gateway_ip is Some,
        information::with_gateway(us) == (UpstreamView {
            workload: WorkloadView {
                gateway_ip: information::with_gateway(us).workload.gateway_ip,
                ..us.workload
            },
            ..us
        }),
        us.workload.gateway_ip is Some ==> information::with_gateway(us) == us,
        information::with_gateway(information::with_gateway(us)) == information::with_gateway(us),
{
}

/// An upstream that is found always has a gateway, and a virtual address leads to it exactly
/// where one is known.
pub proof fn law_found_has_gateway(
    s: InformationView,
    addr: SocketAddr,
    us: UpstreamView,
    vip: bool,
)
    requires
        s.resolves(addr, us, vip),
    ensures
        us.workload.gateway_ip is Some,
        vip == s.vips.contains_key(addr),
{
}

/// Where no virtual address leads to it, the upstream is for the very address and port that
/// were asked for.
pub proof fn law_found_is_asked_for(s: InformationView, addr: SocketAddr, us: UpstreamView)
    requires
        s.sound(),
        s.resolves(addr, us, false),
    ensures
        us.workload.workload_ip == addr.spec_ip(),
        us.port == addr.spec_port(),
{
}

/// Every address has an upstream.
pub proof fn law_every_address_resolves(s: InformationView, addr: SocketAddr) -> (r: (
    UpstreamView,
    bool,
))
    requires
        s.sound(),
    ensures
        s.resolves(addr, r.0, r.1),
{
    if s.vips.contains_key(addr) {
        let us = s.vips[addr].choose();
        assert(!(s.vips[addr] =~= Set::<UpstreamView>::empty()));
        assert(s.vips[addr].contains(us));
        (information::with_gateway(us), true)
    } else if s.workloads.contains_key(addr.spec_ip()) {
        (
            information::with_gateway(
                UpstreamView {
                    workload: s.workloads[addr.spec_ip()],
                    port: addr.spec_port(),
                },
            ),
            false,
        )
    } else {
        (information::passthrough(addr), false)
    }
}

/// An address about which nothing is known is its own gateway, over plain TCP.
pub proof fn law_unknown_passes_through(
    s: InformationView,
    addr: SocketAddr,
    us: UpstreamView,
    vip: bool,
)
    requires
        !s.vips.contains_key(addr),
        !s.workloads.contains_key(addr.spec_ip()),
        s.resolves(addr, us, vip),
    ensures
        !vip,
        us.workload.gateway_ip == Some(addr),
        us.workload.protocol == Protocol::Tcp,
{
}

/// Handling two batches is handling the one that they make together.
pub proof fn law_batches_join(s: InformationView, a: Seq<XdsUpdate>, b: Seq<XdsUpdate>)
    ensures
        s.after_all(a + b) == s.after_all(a).after_all(b),
    decreases b.len(),
{
    if b.len() == 0 {
        assert(a + b =~= a);
    } else {
        assert((a + b).drop_last() =~= a + b.drop_last());
        law_batches_join(s, a, b.drop_last());
    }
}

/// The rejections of two batches are those of the one that they make together.
pub proof fn law_rejections_join(
    rejects: Seq<RejectedView>,
    a: Seq<XdsUpdate>,
    b: Seq<XdsUpdate>,
)
    ensures
        information::noted_all(rejects, a + b) == information::noted_all(
            information::noted_all(rejects, a),
            b,
        ),
    decreases b.len(),
{
    if b.len() == 0 {
        assert(a + b =~= a);
    } else {
        assert((a + b).drop_last() =~= a + b.drop_last());
        law_rejections_join(rejects, a, b.drop_last());
    }
}

/// Two batches go through exactly where the one that they make together does.
pub proof fn law_stuck_joins(s: InformationView, a: Seq<XdsUpdate>, b: Seq<XdsUpdate>)
    ensures
        s.none_stuck(a + b) <==> s.none_stuck(a) && s.after_all(a).none_stuck(b),
{
    let ab = a + b;
    let n = a.len() as int;
    assert forall|i: int| 0 <= i < n implies (#[trigger] a.take(i)) == ab.take(i) && a[i]
        == ab[i] by {
        assert(a.take(i) =~= ab.take(i));
    }
    assert forall|i: int| 0 <= i < b.len() implies s.after_all(a).after_all(#[trigger] b.take(i))
        == s.after_all(ab.take(n + i)) && b[i] == ab[n + i] by {
        assert(ab.take(n + i) =~= a + b.take(i));
        law_batches_join(s, a, b.take(i));
    }
    if s.none_stuck(ab) {
        assert forall|i: int| 0 <= i < n implies !s.after_all(#[trigger] a.take(i)).stuck(
            a[i],
        ) by {
            assert(!s.after_all(ab.take(i)).stuck(ab[i]));
        }
        assert forall|i: int| 0 <= i < b.len() implies !s.after_all(a).after_all(
            #[trigger] b.take(i),
        ).stuck(b[i]) by {
            assert(!s.after_all(ab.take(n + i)).stuck(ab[n + i]));
        }
    }
    if s.none_stuck(a) && s.after_all(a).none_stuck(b) {
        assert forall|k: int| 0 <= k < ab.len() implies !s.after_all(#[trigger] ab.take(k)).stuck(
            ab[k],
        ) by {
            if k < n {
                assert(a.take(k) == ab.take(k));
            } else {
                let i = k - n;
                assert(b.take(i) == b.take(i));
                assert(ab.take(n + i) == ab.take(k));
            }
        }
    }
}

/// What is noted are the reasons for which updates are refused, in their order: nothing that
/// was noted before is lost, an update that is not refused leaves no note, and one that is
/// leaves its name and reason at the end.
pub proof fn law_refused_is_noted(
    rejects: Seq<RejectedView>,
    updates: Seq<XdsUpdate>,
    update: XdsUpdate,
)
    ensures
        rejects.is_prefix_of(information::noted_all(rejects, updates)),
        information::noted_all(rejects, updates.push(update)) == match information::refusal(
            update,
        ) {
            Some(reason) => information::noted_all(rejects, updates).push(
                RejectedView { name: update.spec_name(), reason },
            ),
            None => information::noted_all(rejects, updates),
        },
    decreases updates.len(),
{
    assert(updates.push(update).drop_last() =~= updates);
    if updates.len() > 0 {
        law_refused_is_noted(rejects, updates.drop_last(), updates.last());
    }
}

/// A resource that is no workload changes nothing, and is refused for that.
pub proof fn law_no_workload_changes_nothing(s: InformationView, r: XdsResource)
    requires
        WorkloadView::of_xds(r.resource) is Err,
    ensures
        s.after(XdsUpdate::Update(r)) == s,
        information::refusal(XdsUpdate::Update(r)) == Some(
            RejectReasonView::Workload(WorkloadView::of_xds(r.resource)->Err_0),
        ),
{
}

/// A resource that is a workload is found at its address under its name, whether or not its
/// virtual addresses can be read.
pub proof fn law_update_is_found(s: InformationView, r: XdsResource)
    requires
        WorkloadView::of_xds(r.resource) is Ok,
    ensures
        ({
            let w = WorkloadView::of_xds(r.resource)->Ok_0;
            let t = s.after(XdsUpdate::Update(r));
            &&& t.workloads == s.workloads.insert(w.workload_ip, w)
            &&& t.name_index == s.name_index.insert(w.resource_name(), w.workload_ip)
        }),
{
}

/// The readable virtual addresses end at the first that cannot be read.
pub proof fn law_readable(virtual_ips: Seq<VirtualIp>)
    ensures
        information::readable(virtual_ips) <= virtual_ips.len(),
        forall|i: int|
            0 <= i < information::readable(virtual_ips) ==> ip_parse::ip_of_text(
                (#[trigger] virtual_ips[i]).vip@,
            ) is Some,
        information::readable(virtual_ips) < virtual_ips.len() ==> ip_parse::ip_of_text(
            virtual_ips[information::readable(virtual_ips) as int].vip@,
        ) is None,
    decreases virtual_ips.len(),
{
    if virtual_ips.len() > 0 {
        let before = virtual_ips.drop_last();
        law_readable(before);
        assert forall|i: int|
            0 <= i < information::readable(virtual_ips) implies ip_parse::ip_of_text(
            (#[trigger] virtual_ips[i]).vip@,
        ) is Some by {
            if i < before.len() {
                assert(before[i] == virtual_ips[i]);
            }
        }
        if information::readable(before) < before.len() {
            assert(before[information::readable(before) as int]
                == virtual_ips[information::readable(before) as int]);
        }
    }
}

/// Whether a resource is refused for its virtual addresses does not hang on their order.
pub proof fn law_order_of_refusal(a: Seq<VirtualIp>, b: Seq<VirtualIp>)
    requires
        forall|v: VirtualIp| a.contains(v) <==> b.contains(v),
    ensures
        information::readable(a) == a.len() <==> information::readable(b) == b.len(),
{
    law_readable(a);
    law_readable(b);
    if information::readable(a) < a.len() {
        let v = a[information::readable(a) as int];
        assert(a.contains(v));
        assert(b.contains(v));
    }
    if information::readable(b) < b.len() {
        let v = b[information::readable(b) as int];
        assert(b.contains(v));
        assert(a.contains(v));
    }
}

/// Whether `us` is among what is served at `addr`.
pub open spec fn offers(
    vips: Map<SocketAddr, Set<UpstreamView>>,
    addr: SocketAddr,
    us: UpstreamView,
) -> bool {
    vips.contains_key(addr) && vips[addr].contains(us)
}

/// Whether one of the ports at `ip` makes the workload served at `addr` as `us`.
pub open spec fn port_serves(
    w: WorkloadView,
    ip: IpAddr,
    ports: Seq<Port>,
    addr: SocketAddr,
    us: UpstreamView,
) -> bool {
    exists|j: int|
        0 <= j < ports.len() && addr == information::service_addr(ip, #[trigger] ports[j]) && us
            == information::target(w, ports[j])
}

/// Whether one of the virtual addresses makes the workload served at `addr` as `us`.
pub open spec fn serves(
    w: WorkloadView,
    virtual_ips: Seq<VirtualIp>,
    addr: SocketAddr,
    us: UpstreamView,
) -> bool {
    exists|v: VirtualIp| #[trigger]
        virtual_ips.contains(v) && port_serves(
            w,
            ip_parse::ip_of_text(v.vip@)->0,
            v.ports@,
            addr,
            us,
        )
}

/// Ports add what they serve, and nothing else.
pub proof fn law_ports_serve(
    vips: Map<SocketAddr, Set<UpstreamView>>,
    w: WorkloadView,
    ip: IpAddr,
    ports: Seq<Port>,
    addr: SocketAddr,
    us: UpstreamView,
)
    ensures
        offers(information::with_ports(vips, w, ip, ports), addr, us) <==> offers(vips, addr, us)
            || port_serves(w, ip, ports, addr, us),
    decreases ports.len(),
{
    if ports.len() > 0 {
        let before = ports.drop_last();
        law_ports_serve(vips, w, ip, before, addr, us);
        if port_serves(w, ip, before, addr, us) {
            let j = choose|j: int|
                0 <= j < before.len() && addr == information::service_addr(
                    ip,
                    #[trigger] before[j],
                ) && us == information::target(w, before[j]);
            assert(ports[j] == before[j]);
        }
        if port_serves(w, ip, ports, addr, us) && !port_serves(w, ip, before, addr, us) {
            let j = choose|j: int|
                0 <= j < ports.len() && addr == information::service_addr(ip, #[trigger] ports[j])
                    && us == information::target(w, ports[j]);
            if j < before.len() {
                assert(ports[j] == before[j]);
            }
        }
        assert(ports[ports.len() - 1] == ports.last());
    }
}

/// Something is offered at each address that ports bring in.
proof fn lemma_ports_offer(
    vips: Map<SocketAddr, Set<UpstreamView>>,
    w: WorkloadView,
    ip: IpAddr,
    ports: Seq<Port>,
    addr: SocketAddr,
)
    requires
        information::with_ports(vips, w, ip, ports).contains_key(addr),
        !vips.contains_key(addr),
    ensures
        exists|us: UpstreamView| offers(information::with_ports(vips, w, ip, ports), addr, us),
    decreases ports.len(),
{
    if ports.len() > 0 {
        let before = information::with_ports(vips, w, ip, ports.drop_last());
        if addr == information::service_addr(ip, ports.last()) {
            assert(offers(
                information::with_ports(vips, w, ip, ports),
                addr,
                information::target(w, ports.last()),
            ));
        } else {
            lemma_ports_offer(vips, w, ip, ports.drop_last(), addr);
            let us = choose|us: UpstreamView| offers(before, addr, us);
            assert(offers(information::with_ports(vips, w, ip, ports), addr, us));
        }
    }
}

/// Addresses that are known stay known when ports are added.
proof fn lemma_ports_keep(
    vips: Map<SocketAddr, Set<UpstreamView>>,
    w: WorkloadView,
    ip: IpAddr,
    ports: Seq<Port>,
    addr: SocketAddr,
)
    requires
        vips.contains_key(addr),
    ensures
        information::with_ports(vips, w, ip, ports).contains_key(addr),
    decreases ports.len(),
{
    if ports.len() > 0 {
        lemma_ports_keep(vips, w, ip, ports.drop_last(), addr);
    }
}

/// Virtual addresses add what they serve, and nothing else.
pub proof fn law_virtual_ips_serve(
    vips: Map<SocketAddr, Set<UpstreamView>>,
    w: WorkloadView,
    virtual_ips: Seq<VirtualIp>,
    addr: SocketAddr,
    us: UpstreamView,
)
    ensures
        offers(information::with_virtual_ips(vips, w, virtual_ips), addr, us) <==> offers(
            vips,
            addr,
            us,
        ) || serves(w, virtual_ips, addr, us),
    decreases virtual_ips.len(),
{
    if virtual_ips.len() > 0 {
        let before = virtual_ips.drop_last();
        let last = virtual_ips.last();
        let ip = ip_parse::ip_of_text(last.vip@)->0;
        law_virtual_ips_serve(vips, w, before, addr, us);
        law_ports_serve(
            information::with_virtual_ips(vips, w, before),
            w,
            ip,
            last.ports@,
            addr,
            us,
        );
        if serves(w, before, addr, us) {
            let v = choose|v: VirtualIp| #[trigger]
                before.contains(v) && port_serves(
                    w,
                    ip_parse::ip_of_text(v.vip@)->0,
                    v.ports@,
                    addr,
                    us,
                );
            let k = choose|k: int| 0 <= k < before.len() && before[k] == v;
            assert(virtual_ips[k] == v);
            assert(virtual_ips.contains(v));
        }
        assert(virtual_ips[virtual_ips.len() - 1] == last);
        assert(virtual_ips.contains(last));
        if serves(w, virtual_ips, addr, us) {
            let v = choose|v: VirtualIp| #[trigger]
                virtual_ips.contains(v) && port_serves(
                    w,
                    ip_parse::ip_of_text(v.vip@)->0,
                    v.ports@,
                    addr,
                    us,
                );
            let k = choose|k: int| 0 <= k < virtual_ips.len() && virtual_ips[k] == v;
            if k < before.len() {
                assert(before[k] == v);
                assert(before.contains(v));
            }
        }
    } else {
        assert(!serves(w, virtual_ips, addr, us));
    }
}

/// The addresses that virtual addresses bring in are those at which something is offered.
pub proof fn lemma_virtual_ips_keys(
    vips: Map<SocketAddr, Set<UpstreamView>>,
    w: WorkloadView,
    virtual_ips: Seq<VirtualIp>,
    addr: SocketAddr,
)
    ensures
        information::with_virtual_ips(vips, w, virtual_ips).contains_key(addr) <==> (
        vips.contains_key(addr) || exists|us: UpstreamView|
            offers(information::with_virtual_ips(vips, w, virtual_ips), addr, us)),
    decreases virtual_ips.len(),
{
    if virtual_ips.len() > 0 {
        let before = information::with_virtual_ips(vips, w, virtual_ips.drop_last());
        let last = virtual_ips.last();
        let ip = ip_parse::ip_of_text(last.vip@)->0;
        let after = information::with_virtual_ips(vips, w, virtual_ips);
        lemma_virtual_ips_keys(vips, w, virtual_ips.drop_last(), addr);
        if before.contains_key(addr) {
            lemma_ports_keep(before, w, ip, last.ports@, addr);
            if !vips.contains_key(addr) {
                let us = choose|us: UpstreamView| offers(before, addr, us);
                law_ports_serve(before, w, ip, last.ports@, addr, us);
                assert(offers(after, addr, us));
            }
        } else if after.contains_key(addr) {
            lemma_ports_offer(before, w, ip, last.ports@, addr);
        }
    }
}

/// The order of the virtual addresses makes no difference, nor does saying one twice.
pub proof fn law_order_of_virtual_ips(
    vips: Map<SocketAddr, Set<UpstreamView>>,
    w: WorkloadView,
    a: Seq<VirtualIp>,
    b: Seq<VirtualIp>,
)
    requires
        forall|v: VirtualIp| a.contains(v) <==> b.contains(v),
    ensures
        information::with_virtual_ips(vips, w, a) == information::with_virtual_ips(vips, w, b),
{
    let x = information::with_virtual_ips(vips, w, a);
    let y = information::with_virtual_ips(vips, w, b);
    assert forall|addr: SocketAddr, us: UpstreamView| offers(x, addr, us) == offers(
        y,
        addr,
        us,
    ) by {
        law_virtual_ips_serve(vips, w, a, addr, us);
        law_virtual_ips_serve(vips, w, b, addr, us);
        assert(serves(w, a, addr, us) == serves(w, b, addr, us));
    }
    assert forall|addr: SocketAddr| x.contains_key(addr) == y.contains_key(addr) by {
        lemma_virtual_ips_keys(vips, w, a, addr);
        lemma_virtual_ips_keys(vips, w, b, addr);
    }
    assert forall|addr: SocketAddr| x.contains_key(addr) implies x[addr] == y[addr] by {
        assert forall|us: UpstreamView| x[addr].contains(us) == y[addr].contains(us) by {
            assert(offers(x, addr, us) == offers(y, addr, us));
        }
        assert(x[addr] =~= y[addr]);
    }
    assert(x =~= y);
}

/// Once an update was handled, the workload can be found by each of its virtual addresses up
/// to the first that cannot be read, on each of their ports.
pub proof fn law_update_serves(s: InformationView, r: XdsResource, i: int, j: int)
    requires
        WorkloadView::of_xds(r.resource) is Ok,
        0 <= i < information::readable(r.resource.virtual_ips@),
        0 <= j < r.resource.virtual_ips@[i].ports@.len(),
    ensures
        ({
            let w = WorkloadView::of_xds(r.resource)->Ok_0;
            let entry = r.resource.virtual_ips@[i];
            let ip = ip_parse::ip_of_text(entry.vip@)->0;
            let addr = information::service_addr(ip, entry.ports@[j]);
            let us = information::target(w, entry.ports@[j]);
            &&& ip_parse::ip_of_text(entry.vip@) is Some
            &&& offers(s.after(XdsUpdate::Update(r)).vips, addr, us)
            &&& s.after(XdsUpdate::Update(r)).resolves(addr, information::with_gateway(us), true)
        }),
{
    let w = WorkloadView::of_xds(r.resource)->Ok_0;
    let all = r.resource.virtual_ips@;
    let taken = all.take(information::readable(all) as int);
    law_readable(all);
    let entry = all[i];
    let ip = ip_parse::ip_of_text(entry.vip@)->0;
    let addr = information::service_addr(ip, entry.ports@[j]);
    let us = information::target(w, entry.ports@[j]);
    assert(taken[i] == entry);
    assert(taken.contains(entry));
    assert(port_serves(w, ip, entry.ports@, addr, us));
    law_virtual_ips_serve(s.vips, w, taken, addr, us);
}

/// Nothing that is served is lost by an update.
pub proof fn law_update_keeps_served(
    s: InformationView,
    update: XdsUpdate,
    addr: SocketAddr,
    us: UpstreamView,
)
    requires
        offers(s.vips, addr, us),
    ensures
        offers(s.after(update).vips, addr, us),
{
    if let XdsUpdate::Update(r) = update {
        if let Ok(w) = WorkloadView::of_xds(r.resource) {
            let all = r.resource.virtual_ips@;
            law_virtual_ips_serve(
                s.vips,
                w,
                all.take(information::readable(all) as int),
                addr,
                us,
            );
        }
    }
}

/// Whether every name stands for an address at which there is a workload, and no two names
/// share one.
pub open spec fn one_name_each(s: InformationView) -> bool {
    &&& forall|name: Seq<char>| #[trigger]
        s.name_index.contains_key(name) ==> s.workloads.contains_key(s.name_index[name])
    &&& forall|a: Seq<char>, b: Seq<char>|
        #![trigger s.name_index.contains_key(a), s.name_index.contains_key(b)]
        s.name_index.contains_key(a) && s.name_index.contains_key(b) && s.name_index[a]
            == s.name_index[b] ==> a == b
}

/// Whether no other name stands for the address of the workload.
pub open spec fn address_is_free(s: InformationView, w: WorkloadView) -> bool {
    forall|name: Seq<char>| #[trigger]
        s.name_index.contains_key(name) && s.name_index[name] == w.workload_ip ==> name
            == w.resource_name()
}

/// As long as no workload takes an address that another name stands for, no name ever
/// dangles.
pub proof fn law_no_name_dangles(s: InformationView, update: XdsUpdate)
    requires
        one_name_each(s),
        update matches XdsUpdate::Update(r) ==> (WorkloadView::of_xds(r.resource) matches Ok(w)
            ==> address_is_free(s, w)),
    ensures
        one_name_each(s.after(update)),
        !s.stuck(update),
        forall|name: Seq<char>| !(#[trigger] s.dangling(name)),
{
}

/// While nothing is known yet, all is in order.
pub proof fn law_empty_is_in_order()
    ensures
        one_name_each(InformationView::empty()),
        InformationView::empty().sound(),
{
}

/// Of workloads that are loaded together the last one at an address is found there.
pub proof fn law_last_loaded_is_found(s: InformationView, workloads: Seq<Workload>, i: int)
    requires
        0 <= i < workloads.len(),
        forall|k: int|
            i < k < workloads.len() ==> (#[trigger] workloads[k]).workload_ip
                != workloads[i].workload_ip,
    ensures
        s.inserted_all(workloads).workloads.contains_key(workloads[i].workload_ip),
        s.inserted_all(workloads).workloads[workloads[i].workload_ip] == workloads[i]@,
    decreases workloads.len(),
{
    let before = workloads.drop_last();
    if i < before.len() {
        assert forall|k: int| i < k < before.len() implies (#[trigger] before[k]).workload_ip
            != before[i].workload_ip by {
            assert(before[k] == workloads[k]);
        }
        law_last_loaded_is_found(s, before, i);
        assert(workloads[workloads.len() - 1].workload_ip != workloads[i].workload_ip);
    }
}

/// The bytes of an address can be read off it, so that no two byte strings make the same.
pub proof fn law_network_order(b: Seq<u8>)
    requires
        workload::ip_of_network_order(b) is Ok,
    ensures
        match workload::ip_of_network_order(b)->Ok_0 {
            None => b.len() == 0,
            Some(IpAddr::V4(v)) => workload::widened(b) == net::octets(v),
            Some(IpAddr::V6(v)) => workload::widened(b) == digits::place_digits(v as nat, 256, 16),
        },
{
    let o = workload::widened(b);
    reveal(pow);
    reveal_with_fuel(pow, 17);
    assert(pow(256, 4) == 0x1_0000_0000);
    assert(pow(256, 16) == u128::MAX + 1);
    digits::lemma_place_value_bound(o, 256);
    digits::lemma_digits_of_value(o, 256);
}

} // verus!
