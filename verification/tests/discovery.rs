use bytes::Bytes;
use workload::identity::Identity;
use workload::information::{handle_xds, WorkloadInformation};
use workload::net::{AddrParseError, IpAddr, SocketAddr, SocketAddrV6};
use workload::workload::{Protocol, Upstream, Workload, WorkloadError};
use workload::xds::{
    HandlerContext, Port, RejectReason, VirtualIp, XdsProtocol, XdsResource, XdsUpdate, XdsWorkload,
};

fn v4(last: u8) -> IpAddr {
    IpAddr::V4(0x0a00_0000 + last as u32)
}

fn wl(name: &str, ip: IpAddr) -> Workload {
    Workload {
        workload_ip: ip,
        waypoint_address: None,
        gateway_ip: None,
        protocol: Protocol::Tcp,
        name: name.to_string(),
        namespace: "ns".to_string(),
        service_account: "sa".to_string(),
        node: "node".to_string(),
        native_hbone: false,
    }
}

fn xds(name: &str, address: &[u8]) -> XdsWorkload {
    XdsWorkload {
        name: name.to_string(),
        namespace: "ns".to_string(),
        address: Bytes::copy_from_slice(address),
        waypoint_address: Bytes::new(),
        protocol: Some(XdsProtocol::Direct),
        service_account: "".to_string(),
        node: "node".to_string(),
        native_hbone: true,
        virtual_ips: vec![],
    }
}

fn vip(text: &str, service_port: u32, target_port: u32) -> VirtualIp {
    VirtualIp { vip: text.to_string(), ports: vec![Port { service_port, target_port }] }
}

fn update(resource: XdsWorkload) -> XdsUpdate {
    XdsUpdate::Update(XdsResource { name: resource.name.clone() + "-id", resource })
}

fn remove(name: &str) -> XdsUpdate {
    XdsUpdate::Remove(name.to_string())
}

#[test]
fn protocols() {
    assert_eq!(Protocol::default(), Protocol::Tcp);
    assert_eq!(Protocol::try_from(Some(XdsProtocol::Http)), Ok(Protocol::Hbone));
    assert_eq!(Protocol::try_from(Some(XdsProtocol::Direct)), Ok(Protocol::Hbone));
    assert_eq!(
        Protocol::try_from(None),
        Err(WorkloadError::ProtocolParse("unknown type".to_string()))
    );
}

#[test]
fn error_texts() {
    assert_eq!(
        WorkloadError::from(AddrParseError).to_string(),
        "failed to parse address: invalid IP address syntax"
    );
    assert_eq!(
        WorkloadError::ByteAddressParse(10).to_string(),
        "failed to parse address, had 10 bytes"
    );
    assert_eq!(WorkloadError::ProtocolParse("x".to_string()).to_string(), "unknown protocol x");
    assert_eq!(
        RejectReason::VirtualIp(AddrParseError).to_string(),
        "invalid IP address syntax"
    );
    assert_eq!(
        RejectReason::Workload(WorkloadError::ByteAddressParse(0)).to_string(),
        "failed to parse address, had 0 bytes"
    );
}

#[test]
fn workload_texts_and_identity() {
    let mut w = wl("web", v4(1));
    assert_eq!(w.to_string(), "Workload{web at 10.0.0.1 via None (Tcp)}");
    w.gateway_ip = Some(SocketAddr::new(v4(2), 15008));
    w.protocol = Protocol::Hbone;
    assert_eq!(w.to_string(), "Workload{web at 10.0.0.1 via 10.0.0.2:15008 (Hbone)}");
    assert_eq!(w.resource_name(), "web/ns");
    assert_eq!(
        w.identity(),
        Identity::Spiffe {
            trust_domain: "cluster.local".to_string(),
            namespace: "ns".to_string(),
            service_account: "sa".to_string(),
        }
    );
    let us = Upstream { workload: w.clone(), port: 8080 };
    assert_eq!(us.to_string(), "Upstream{web at 10.0.0.1:8080 via 10.0.0.2:15008 (Hbone)}");
    assert_eq!(us.clone(), us);
    let plain = Upstream { workload: wl("web", IpAddr::V6(1)), port: 0 };
    assert_eq!(plain.to_string(), "Upstream{web at ::1:0 via None (Tcp)}");
}

#[test]
fn described_workload() {
    let mut x = xds("web", &[10, 0, 0, 1]);
    x.waypoint_address = Bytes::from(vec![10, 0, 0, 9]);
    let mut expected = wl("web", v4(1));
    expected.waypoint_address = Some(v4(9));
    expected.protocol = Protocol::Hbone;
    expected.service_account = "default".to_string();
    expected.native_hbone = true;
    assert_eq!(Workload::try_from(&x), Ok(expected.clone()));
    x.service_account = "mine".to_string();
    expected.service_account = "mine".to_string();
    assert_eq!(Workload::try_from(&x), Ok(expected));
}

#[test]
fn first_error_of_a_description() {
    let mut x = xds("web", &[]);
    assert_eq!(Workload::try_from(&x), Err(WorkloadError::ByteAddressParse(0)));
    x.protocol = None;
    assert_eq!(Workload::try_from(&x), Err(WorkloadError::ByteAddressParse(0)));
    x.address = Bytes::from(vec![1; 5]);
    assert_eq!(Workload::try_from(&x), Err(WorkloadError::ByteAddressParse(5)));
    x.waypoint_address = Bytes::from(vec![1; 17]);
    assert_eq!(Workload::try_from(&x), Err(WorkloadError::ByteAddressParse(17)));
    x.waypoint_address = Bytes::new();
    x.address = Bytes::from(vec![1; 16]);
    assert_eq!(
        Workload::try_from(&x),
        Err(WorkloadError::ProtocolParse("unknown type".to_string()))
    );
}

#[test]
fn inserted_is_found_and_removed() {
    let mut info = WorkloadInformation::default();
    assert_eq!(info.find_workload(&v4(1)), None);
    info.insert(wl("a", v4(1)));
    info.insert(wl("b", IpAddr::V6(1)));
    assert_eq!(info.find_workload(&v4(1)), Some(&wl("a", v4(1))));
    assert_eq!(info.find_workload(&IpAddr::V6(1)), Some(&wl("b", IpAddr::V6(1))));
    assert_eq!(info.find_workload(&IpAddr::V4(1)), None);
    info.remove("a/ns".to_string());
    assert_eq!(info.find_workload(&v4(1)), None);
    assert_eq!(info.find_workload(&IpAddr::V6(1)), Some(&wl("b", IpAddr::V6(1))));
    // Again, and a name that was never there.
    info.remove("a/ns".to_string());
    info.remove("b".to_string());
    assert_eq!(info.find_workload(&IpAddr::V6(1)), Some(&wl("b", IpAddr::V6(1))));
    assert_eq!(info.workload_entries().len(), 1);
    assert_eq!(info.name_entries().len(), 1);
    assert_eq!(info.name_entries()[0].name, "b/ns");
    assert_eq!(info.name_entries()[0].ip, IpAddr::V6(1));
}

#[test]
fn last_loaded_is_found() {
    let mut info = WorkloadInformation::default();
    info.insert_all(vec![wl("a", v4(1)), wl("b", v4(2)), wl("c", v4(1))]);
    assert_eq!(info.find_workload(&v4(1)), Some(&wl("c", v4(1))));
    assert_eq!(info.find_workload(&v4(2)), Some(&wl("b", v4(2))));
    assert_eq!(info.name_entries().len(), 3);
}

#[test]
fn a_moved_name_leaves_the_old_workload() {
    let mut info = WorkloadInformation::default();
    info.insert(wl("a", v4(1)));
    info.insert(wl("a", v4(2)));
    info.remove("a/ns".to_string());
    assert_eq!(info.find_workload(&v4(1)), Some(&wl("a", v4(1))));
    assert_eq!(info.find_workload(&v4(2)), None);
}

#[test]
fn gateways() {
    let mut us = Upstream { workload: wl("a", v4(1)), port: 80 };
    WorkloadInformation::set_gateway_ip(&mut us);
    assert_eq!(us.workload.gateway_ip, Some(SocketAddr::new(v4(1), 80)));
    // One that is there stays.
    us.workload.protocol = Protocol::Hbone;
    us.workload.waypoint_address = Some(v4(9));
    WorkloadInformation::set_gateway_ip(&mut us);
    assert_eq!(us.workload.gateway_ip, Some(SocketAddr::new(v4(1), 80)));
    us.workload.gateway_ip = None;
    WorkloadInformation::set_gateway_ip(&mut us);
    assert_eq!(us.workload.gateway_ip, Some(SocketAddr::new(v4(9), 15008)));
    us.workload.gateway_ip = None;
    us.workload.waypoint_address = None;
    WorkloadInformation::set_gateway_ip(&mut us);
    assert_eq!(us.workload.gateway_ip, Some(SocketAddr::new(v4(1), 15008)));
    // Plain traffic does not go by the waypoint.
    us.workload.gateway_ip = None;
    us.workload.protocol = Protocol::Tcp;
    us.workload.waypoint_address = Some(v4(9));
    WorkloadInformation::set_gateway_ip(&mut us);
    assert_eq!(us.workload.gateway_ip, Some(SocketAddr::new(v4(1), 80)));
    assert_eq!(us.port, 80);
}

#[test]
fn unknown_passes_through() {
    let info = WorkloadInformation::default();
    let addr = SocketAddr::V6(SocketAddrV6 { ip: 7, port: 80, flowinfo: 1, scope_id: 2 });
    let (us, by_vip) = info.find_upstream(addr);
    assert!(!by_vip);
    assert_eq!(us.port, 80);
    assert_eq!(us.workload.workload_ip, IpAddr::V6(7));
    assert_eq!(us.workload.gateway_ip, Some(addr));
    assert_eq!(us.workload.protocol, Protocol::Tcp);
    assert_eq!(us.workload.name, "");
    assert_eq!(us.workload.waypoint_address, None);
}

#[test]
fn known_workload_is_the_upstream() {
    let mut info = WorkloadInformation::default();
    let mut w = wl("a", v4(1));
    w.protocol = Protocol::Hbone;
    info.insert(w.clone());
    let (us, by_vip) = info.find_upstream(SocketAddr::new(v4(1), 80));
    assert!(!by_vip);
    w.gateway_ip = Some(SocketAddr::new(v4(1), 15008));
    assert_eq!(us, Upstream { workload: w, port: 80 });
}

#[test]
fn virtual_addresses_lead_to_the_workload() {
    let mut info = WorkloadInformation::default();
    let mut ctx = HandlerContext::new();
    let mut x = xds("web", &[10, 0, 0, 1]);
    x.virtual_ips = vec![
        VirtualIp {
            vip: "10.1.0.1".to_string(),
            ports: vec![
                Port { service_port: 80, target_port: 8080 },
                Port { service_port: 0x1_01bb, target_port: 0x2_20fb },
            ],
        },
        vip("::5", 80, 8081),
    ];
    info.handle(&mut ctx, vec![update(x)]);
    assert_eq!(ctx.rejects.len(), 0);
    let virtual_ip = IpAddr::V4(0x0a01_0001);
    let (us, by_vip) = info.find_upstream(SocketAddr::new(virtual_ip, 80));
    assert!(by_vip);
    assert_eq!(us.port, 8080);
    assert_eq!(us.workload.name, "web");
    assert_eq!(us.workload.gateway_ip, Some(SocketAddr::new(v4(1), 15008)));
    // Ports keep their last sixteen bits.
    let (us, by_vip) = info.find_upstream(SocketAddr::new(virtual_ip, 443));
    assert!(by_vip);
    assert_eq!(us.port, 8443);
    let (us, by_vip) = info.find_upstream(SocketAddr::new(IpAddr::V6(5), 80));
    assert!(by_vip);
    assert_eq!(us.port, 8081);
    // Another port, and an address with a scope, are not served.
    assert!(!info.find_upstream(SocketAddr::new(virtual_ip, 81)).1);
    let scoped = SocketAddr::V6(SocketAddrV6 { ip: 5, port: 80, flowinfo: 0, scope_id: 1 });
    assert!(!info.find_upstream(scoped).1);
    assert_eq!(info.vip_entries().len(), 3);
    // What is served outlives the workload.
    info.handle(&mut ctx, vec![remove("web/ns")]);
    assert_eq!(info.find_workload(&v4(1)), None);
    assert!(info.find_upstream(SocketAddr::new(virtual_ip, 80)).1);
}

#[test]
fn upstreams_of_one_virtual_address() {
    let mut info = WorkloadInformation::default();
    let mut ctx = HandlerContext::new();
    for last in [1u8, 2, 1] {
        let mut x = xds("web", &[10, 0, 0, last]);
        x.virtual_ips = vec![vip("10.1.0.1", 80, 8080)];
        info.handle(&mut ctx, vec![update(x)]);
    }
    let entries = info.vip_entries();
    assert_eq!(entries.len(), 1);
    // The same upstream is kept once.
    assert_eq!(entries[0].1.items().len(), 2);
    let (us, by_vip) = info.find_upstream(SocketAddr::new(IpAddr::V4(0x0a01_0001), 80));
    assert!(by_vip);
    assert!(us.workload.workload_ip == v4(1) || us.workload.workload_ip == v4(2));
}

#[test]
fn unreadable_virtual_address_ends_an_update() {
    let mut info = WorkloadInformation::default();
    let mut ctx = HandlerContext::new();
    let mut x = xds("web", &[10, 0, 0, 1]);
    x.virtual_ips = vec![vip("10.1.0.1", 80, 1), vip("nowhere", 80, 2), vip("10.1.0.3", 80, 3)];
    info.handle(&mut ctx, vec![update(x), update(xds("db", &[10, 0, 0, 2]))]);
    assert_eq!(ctx.rejects.len(), 1);
    assert_eq!(ctx.rejects[0].name, "web-id");
    assert_eq!(ctx.rejects[0].reason, RejectReason::VirtualIp(AddrParseError));
    // What came before it counts, the workload itself included; what came after does not.
    assert!(info.find_workload(&v4(1)).is_some());
    assert!(info.find_upstream(SocketAddr::new(IpAddr::V4(0x0a01_0001), 80)).1);
    assert!(!info.find_upstream(SocketAddr::new(IpAddr::V4(0x0a01_0003), 80)).1);
    // The next update is handled all the same.
    assert!(info.find_workload(&v4(2)).is_some());
}

#[test]
fn order_of_virtual_addresses_is_no_matter() {
    let addresses = ["10.1.0.1", "::5", "10.1.0.2"];
    for order in [[0, 1, 2], [2, 1, 0], [1, 0, 2]] {
        let mut info = WorkloadInformation::default();
        let mut ctx = HandlerContext::new();
        let mut x = xds("web", &[10, 0, 0, 1]);
        for i in order {
            x.virtual_ips.push(vip(addresses[i], 80, i as u32));
        }
        info.handle(&mut ctx, vec![update(x)]);
        for i in 0..3 {
            let addr = SocketAddr::new(IpAddr::parse(addresses[i]).unwrap(), 80);
            let (us, by_vip) = info.find_upstream(addr);
            assert!(by_vip);
            assert_eq!(us.port, i as u16);
        }
    }
}

#[test]
fn refused_updates_are_noted_in_order() {
    let mut info = WorkloadInformation::default();
    let mut ctx = HandlerContext::new();
    let mut odd = xds("odd", &[10, 0, 0, 3]);
    odd.protocol = None;
    info.handle(
        &mut ctx,
        vec![update(xds("short", &[1, 2])), update(xds("ok", &[10, 0, 0, 1])), update(odd)],
    );
    assert_eq!(ctx.rejects.len(), 2);
    assert_eq!(ctx.rejects[0].name, "short-id");
    assert_eq!(
        ctx.rejects[0].reason,
        RejectReason::Workload(WorkloadError::ByteAddressParse(2))
    );
    assert_eq!(ctx.rejects[1].name, "odd-id");
    assert_eq!(
        ctx.rejects[1].reason,
        RejectReason::Workload(WorkloadError::ProtocolParse("unknown type".to_string()))
    );
    assert_eq!(info.workload_entries().len(), 1);
}

#[test]
fn batches_join() {
    let mut one = WorkloadInformation::default();
    let mut two = WorkloadInformation::default();
    let mut ctx_one = HandlerContext::new();
    let mut ctx_two = HandlerContext::new();
    one.handle(
        &mut ctx_one,
        vec![update(xds("a", &[10, 0, 0, 1])), remove("a/ns"), update(xds("b", &[7]))],
    );
    two.handle(&mut ctx_two, vec![update(xds("a", &[10, 0, 0, 1]))]);
    two.handle(&mut ctx_two, vec![remove("a/ns"), update(xds("b", &[7]))]);
    assert_eq!(ctx_one, ctx_two);
    assert_eq!(one.find_workload(&v4(1)), None);
    assert_eq!(two.find_workload(&v4(1)), None);
}

#[test]
fn dangling_name_stops_a_batch() {
    let mut info = WorkloadInformation::default();
    let mut ctx = HandlerContext::new();
    let r = info.try_handle(
        &mut ctx,
        vec![
            update(xds("a", &[10, 0, 0, 1])),
            update(xds("b", &[10, 0, 0, 1])),
            remove("a/ns"),
            remove("b/ns"),
            update(xds("c", &[10, 0, 0, 3])),
        ],
    );
    let d = r.unwrap_err();
    assert_eq!(d.name, "b/ns");
    assert_eq!(d.ip, v4(1));
    assert_eq!(
        d.to_string(),
        "removed name b/ns with ip 10.0.0.1, but was not found in workload map"
    );
    assert_eq!(info.find_dangling(&"b/ns".to_string()), Some(d));
    assert_eq!(info.find_dangling(&"a/ns".to_string()), None);
    assert_eq!(info.find_workload(&v4(3)), None);
}

#[test]
fn failures_are_noted() {
    let mut ctx = HandlerContext::new();
    handle_xds(&mut ctx, "fine".to_string(), || Ok(()));
    assert_eq!(ctx, HandlerContext::new());
    handle_xds(&mut ctx, "bad".to_string(), || Err(RejectReason::VirtualIp(AddrParseError)));
    assert_eq!(ctx.rejects.len(), 1);
    assert_eq!(ctx.rejects[0].name, "bad");
    assert_eq!(ctx.rejects[0].reason, RejectReason::VirtualIp(AddrParseError));
}

#[test]
fn bytes_make_distinct_addresses() {
    let a = workload::workload::byte_to_ip(&Bytes::from(vec![0, 0, 1, 0])).unwrap();
    let b = workload::workload::byte_to_ip(&Bytes::from(vec![0, 0, 0, 1])).unwrap();
    assert_eq!(a, Some(IpAddr::V4(256)));
    assert_eq!(b, Some(IpAddr::V4(1)));
    let max = workload::workload::byte_to_ip(&Bytes::from(vec![255; 16])).unwrap();
    assert_eq!(max, Some(IpAddr::V6(u128::MAX)));
}
