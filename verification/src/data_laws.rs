//! What workloads, their descriptions and their texts say, field by field.

use crate::bytes_spec;
use crate::digits;
use crate::identity::Identity;
use crate::information::DanglingName;
use crate::ip_text;
use crate::net;
use crate::net::{AddrParseError, IpAddr, SocketAddr, SocketAddrV4, SocketAddrV6};
use crate::workload;
use crate::workload::{
    Protocol, Upstream, UpstreamView, Workload, WorkloadError, WorkloadErrorView, WorkloadView,
};
use crate::xds::{
    HandlerContext, RejectReason, RejectReasonView, XdsProtocol, XdsResource, XdsUpdate,
    XdsWorkload,
};
use vstd::arithmetic::power::*;
use vstd::prelude::*;

verus! {

/// Whether `b` holds the bits of `ip`, the most significant byte first.
pub open spec fn is_address(b: Seq<u8>, ip: IpAddr) -> bool {
    match ip {
        IpAddr::V4(v) => b.len() == 4 && v == b[0] * 0x100_0000 + b[1] * 0x1_0000 + b[2] * 0x100
            + b[3],
        IpAddr::V6(v) => b.len() == 16 && forall|i: int|
            0 <= i < 16 ==> (#[trigger] b[i]) == (v as int / pow(256, (15 - i) as nat)) % 256,
    }
}

/// The digits of a number, one by one.
pub proof fn lemma_place_digit(n: nat, base: nat, len: nat, i: int)
    requires
        2 <= base <= 0x1_0000,
        0 <= i < len,
    ensures
        digits::place_digits(n, base, len).len() == len,
        digits::place_digits(n, base, len)[i] == (n as int / pow(
            base as int,
            (len - 1 - i) as nat,
        )) % base as int,
    decreases len,
{
    digits::lemma_place_digits(n, base, len);
    reveal(pow);
    if i < len - 1 {
        let k = (len - 2 - i) as nat;
        lemma_place_digit(n / base, base, (len - 1) as nat, i);
        lemma_pow_positive(base as int, k);
        vstd::arithmetic::div_mod::lemma_div_denominator(n as int, base as int, pow(base as int, k));
        assert(pow(base as int, (len - 1 - i) as nat) == base * pow(base as int, k));
    } else {
        vstd::arithmetic::div_mod::lemma_mod_bound(n as int, base as int);
        assert(n as int / 1 == n);
    }
}

/// Bytes make an address only where there are four or sixteen of them, and then it holds
/// their bits in their order; without bytes there is none; any other number is the error.
pub proof fn law_bytes_of_an_address(b: Seq<u8>)
    requires
        b.len() <= usize::MAX,
    ensures
        match workload::ip_of_network_order(b) {
            Ok(None) => b.len() == 0,
            Ok(Some(ip)) => is_address(b, ip),
            Err(WorkloadErrorView::ByteAddressParse(n)) => n == b.len() && n != 0 && n != 4 && n
                != 16,
            Err(_) => false,
        },
{
    if b.len() == 4 || b.len() == 16 {
        crate::laws::law_network_order(b);
        let o = workload::widened(b);
        match workload::ip_of_network_order(b)->Ok_0->0 {
            IpAddr::V4(v) => {
                reveal(pow);
                reveal_with_fuel(pow, 5);
                digits::lemma_place_value_bound(o, 256);
                assert(pow(256, 4) == 0x1_0000_0000);
                reveal_with_fuel(digits::place_value, 5);
                assert(o.drop_last() =~= seq![b[0] as u16, b[1] as u16, b[2] as u16]);
                assert(o.drop_last().drop_last() =~= seq![b[0] as u16, b[1] as u16]);
                assert(o.drop_last().drop_last().drop_last() =~= seq![b[0] as u16]);
            },
            IpAddr::V6(v) => {
                assert forall|i: int| 0 <= i < 16 implies (#[trigger] b[i]) == (v as int / pow(
                    256,
                    (15 - i) as nat,
                )) % 256 by {
                    lemma_place_digit(v as nat, 256, 16, i);
                    assert(o[i] == b[i]);
                }
            },
        }
    }
}

/// A description that is accepted speaks of a tunnelled workload, and of nothing that the
/// description does not say.
pub proof fn law_described(r: XdsWorkload)
    requires
        bytes_spec::bytes_content(r.address).len() <= usize::MAX,
        bytes_spec::bytes_content(r.waypoint_address).len() <= usize::MAX,
        WorkloadView::of_xds(r) is Ok,
    ensures
        ({
            let w = WorkloadView::of_xds(r)->Ok_0;
            &&& r.protocol == Some(XdsProtocol::Http) || r.protocol == Some(XdsProtocol::Direct)
            &&& w.protocol == Protocol::Hbone
            &&& w.name == r.name@
            &&& w.namespace == r.namespace@
            &&& w.node == r.node@
            &&& w.native_hbone == r.native_hbone
            &&& w.gateway_ip is None
            &&& is_address(bytes_spec::bytes_content(r.address), w.workload_ip)
            &&& match w.waypoint_address {
                Some(p) => is_address(bytes_spec::bytes_content(r.waypoint_address), p),
                None => bytes_spec::bytes_content(r.waypoint_address).len() == 0,
            }
            &&& r.service_account@.len() > 0 ==> w.service_account == r.service_account@
            &&& r.service_account@.len() == 0 ==> w.service_account == seq![
                'd',
                'e',
                'f',
                'a',
                'u',
                'l',
                't',
            ]
        }),
{
    law_bytes_of_an_address(bytes_spec::bytes_content(r.address));
    law_bytes_of_an_address(bytes_spec::bytes_content(r.waypoint_address));
    reveal_strlit("default");
    assert("default"@ =~= seq!['d', 'e', 'f', 'a', 'u', 'l', 't']);
}

/// A description is accepted exactly where its addresses have lengths that addresses have,
/// its own is there, and its protocol is known. The error tells of the waypoint first, then
/// of the address, then of the protocol.
pub proof fn law_described_or_refused(r: XdsWorkload)
    requires
        bytes_spec::bytes_content(r.address).len() <= usize::MAX,
        bytes_spec::bytes_content(r.waypoint_address).len() <= usize::MAX,
    ensures
        ({
            let a = bytes_spec::bytes_content(r.address).len();
            let p = bytes_spec::bytes_content(r.waypoint_address).len();
            let waypoint_fits = p == 0 || p == 4 || p == 16;
            let address_fits = a == 4 || a == 16;
            match WorkloadView::of_xds(r) {
                Ok(_) => waypoint_fits && address_fits && r.protocol is Some,
                Err(WorkloadErrorView::ByteAddressParse(n)) => if waypoint_fits {
                    n == a && !address_fits
                } else {
                    n == p
                },
                Err(WorkloadErrorView::ProtocolParse(text)) => waypoint_fits && address_fits
                    && r.protocol is None && text == "unknown type"@,
                Err(WorkloadErrorView::AddressParse(_)) => false,
            }
        }),
{
    law_bytes_of_an_address(bytes_spec::bytes_content(r.address));
    law_bytes_of_an_address(bytes_spec::bytes_content(r.waypoint_address));
}

/// Each protocol that the service knows is tunnelled; one that it does not know is refused.
pub proof fn law_protocols(value: Option<XdsProtocol>)
    ensures
        value is Some ==> Protocol::of_xds(value) == Ok::<Protocol, WorkloadErrorView>(
            Protocol::Hbone,
        ),
        value is None ==> Protocol::of_xds(value) == Err::<Protocol, WorkloadErrorView>(
            WorkloadErrorView::ProtocolParse("unknown type"@),
        ),
{
}

/// What [`workload::byte_to_ip`] gives: an address of the bits of the bytes, nothing without
/// bytes, or the error with their number.
pub proof fn law_byte_to_ip_call(b: bytes::Bytes, r: Result<Option<IpAddr>, WorkloadError>)
    requires
        bytes_spec::bytes_content(b).len() <= usize::MAX,
        call_ensures(workload::byte_to_ip, (&b,), r),
    ensures
        ({
            let n = bytes_spec::bytes_content(b).len();
            match r {
                Ok(None) => n == 0,
                Ok(Some(ip)) => is_address(bytes_spec::bytes_content(b), ip),
                Err(e) => e == WorkloadError::ByteAddressParse(n as usize) && n != 0 && n != 4 && n
                    != 16,
            }
        }),
{
    law_bytes_of_an_address(bytes_spec::bytes_content(b));
}

/// What a conversion from a description gives: a tunnelled workload with the fields of the
/// description.
pub proof fn law_try_from_call(r: XdsWorkload, w: Workload)
    requires
        bytes_spec::bytes_content(r.address).len() <= usize::MAX,
        bytes_spec::bytes_content(r.waypoint_address).len() <= usize::MAX,
        call_ensures(<Workload as TryFrom<&XdsWorkload>>::try_from, (&r,), Ok(w)),
    ensures
        r.protocol is Some,
        w.protocol == Protocol::Hbone,
        is_address(bytes_spec::bytes_content(r.address), w.workload_ip),
        match w.waypoint_address {
            Some(p) => is_address(bytes_spec::bytes_content(r.waypoint_address), p),
            None => bytes_spec::bytes_content(r.waypoint_address).len() == 0,
        },
        w.gateway_ip is None,
        w.name@ == r.name@,
        w.namespace@ == r.namespace@,
        w.node@ == r.node@,
        w.native_hbone == r.native_hbone,
        r.service_account@.len() > 0 ==> w.service_account@ == r.service_account@,
        r.service_account@.len() == 0 ==> w.service_account@ == "default"@,
{
    law_described(r);
}

/// An address that could not be read, as an error of a workload, is just that.
pub proof fn law_from_call(a: AddrParseError, e: WorkloadError)
    requires
        call_ensures(<WorkloadError as From<AddrParseError>>::from, (a,), e),
    ensures
        e == WorkloadError::AddressParse(a),
{
}

/// The name under which a workload is kept starts with its name, ends with its namespace, and
/// has one slash between them.
pub proof fn law_resource_name(w: WorkloadView)
    ensures
        w.resource_name().len() == w.name.len() + 1 + w.namespace.len(),
        w.resource_name().take(w.name.len() as int) == w.name,
        w.resource_name()[w.name.len() as int] == '/',
        w.resource_name().skip(w.name.len() as int + 1) == w.namespace,
{
    reveal_strlit("/");
    assert(w.resource_name().take(w.name.len() as int) =~= w.name);
    assert(w.resource_name().skip(w.name.len() as int + 1) =~= w.namespace);
}

/// What [`Workload::resource_name`] gives reads as name, slash and namespace.
pub proof fn law_resource_name_call(w: Workload, r: String)
    requires
        call_ensures(Workload::resource_name, (&w,), r),
    ensures
        r@ == w.name@ + seq!['/'] + w.namespace@,
{
    reveal_strlit("/");
    assert("/"@ =~= seq!['/']);
}

/// The identity of a workload is in the one trust domain, with its own namespace and account.
pub proof fn law_identity_call(w: Workload, r: Identity)
    requires
        call_ensures(Workload::identity, (&w,), r),
    ensures
        match r {
            Identity::Spiffe { trust_domain, namespace, service_account } => {
                &&& trust_domain@ == "cluster.local"@
                &&& namespace@ == w.namespace@
                &&& service_account@ == w.service_account@
            },
        },
{
}

/// What a workload says is what its fields hold, each of them.
pub proof fn law_workload_says(w: Workload)
    ensures
        w@.workload_ip == w.workload_ip,
        w@.waypoint_address == w.waypoint_address,
        w@.gateway_ip == w.gateway_ip,
        w@.protocol == w.protocol,
        w@.name == w.name@,
        w@.namespace == w.namespace@,
        w@.service_account == w.service_account@,
        w@.node == w.node@,
        w@.native_hbone == w.native_hbone,
{
}

/// What an upstream says is what its workload says, and its port.
pub proof fn law_upstream_says(us: Upstream)
    ensures
        us@.workload == us.workload@,
        us@.port == us.port,
{
}

/// What an error says is its kind and what it holds.
pub proof fn law_errors_say(e: WorkloadError, reason: RejectReason)
    ensures
        match e {
            WorkloadError::AddressParse(a) => e@ == WorkloadErrorView::AddressParse(a),
            WorkloadError::ByteAddressParse(n) => e@ == WorkloadErrorView::ByteAddressParse(n),
            WorkloadError::ProtocolParse(s) => e@ == WorkloadErrorView::ProtocolParse(s@),
        },
        match reason {
            RejectReason::Workload(e) => reason@ == RejectReasonView::Workload(e@),
            RejectReason::VirtualIp(a) => reason@ == RejectReasonView::VirtualIp(a),
        },
{
}

/// A context says what was refused: each entry, with its name and reason, in its place.
pub proof fn law_context_says(ctx: HandlerContext, i: int)
    requires
        0 <= i < ctx.rejects@.len(),
    ensures
        ctx@.len() == ctx.rejects@.len(),
        ctx@[i].name == ctx.rejects@[i].name@,
        ctx@[i].reason == ctx.rejects@[i].reason@,
{
}

/// An update goes by the name that the service gave.
pub proof fn law_update_name(r: XdsResource, name: String)
    ensures
        XdsUpdate::Update(r).spec_name() == r.name@,
        XdsUpdate::Remove(name).spec_name() == name@,
{
}

/// A socket address is its IP address and its port, whichever the family.
pub proof fn law_socket_parts(v4: u32, v6: u128, port: u16, flowinfo: u32, scope_id: u32)
    ensures
        SocketAddr::V4(SocketAddrV4 { ip: v4, port }).spec_ip() == IpAddr::V4(v4),
        SocketAddr::V4(SocketAddrV4 { ip: v4, port }).spec_port() == port,
        SocketAddr::V6(SocketAddrV6 { ip: v6, port, flowinfo, scope_id }).spec_ip() == IpAddr::V6(
            v6,
        ),
        SocketAddr::V6(SocketAddrV6 { ip: v6, port, flowinfo, scope_id }).spec_port() == port,
{
}

/// Putting an IP address and a port together and taking them apart again gives them back, and
/// neither flow label nor scope comes in.
pub proof fn law_socket_together(ip: IpAddr, port: u16)
    ensures
        net::socket(ip, port).spec_ip() == ip,
        net::socket(ip, port).spec_port() == port,
        net::socket(ip, port) matches SocketAddr::V6(a) ==> a.flowinfo == 0 && a.scope_id == 0,
{
}

/// The text of a workload without a gateway, over TCP, and of one with both otherwise.
pub proof fn law_workload_text(w: WorkloadView)
    ensures
        ({
            let front = "Workload{"@ + w.name + " at "@ + ip_text::ip_text(w.workload_ip)
                + " via "@;
            match (w.gateway_ip, w.protocol) {
                (None, Protocol::Tcp) => w.text() == front + "None (Tcp)}"@,
                (None, Protocol::Hbone) => w.text() == front + "None (Hbone)}"@,
                (Some(g), Protocol::Tcp) => w.text() == front + ip_text::socket_text(g)
                    + " (Tcp)}"@,
                (Some(g), Protocol::Hbone) => w.text() == front + ip_text::socket_text(g)
                    + " (Hbone)}"@,
            }
        }),
{
    lemma_text_ends();
    let front = "Workload{"@ + w.name + " at "@ + ip_text::ip_text(w.workload_ip) + " via "@;
    let mid = match w.gateway_ip {
        None => "None"@,
        Some(g) => ip_text::socket_text(g),
    };
    let p = match w.protocol {
        Protocol::Tcp => "Tcp"@,
        Protocol::Hbone => "Hbone"@,
    };
    assert(w.text() =~= front + (mid + (" ("@ + p + ")}"@)));
    assert(w.text() =~= front + mid + (" ("@ + p + ")}"@));
}

/// How the texts end.
proof fn lemma_text_ends()
    ensures
        " ("@ + "Tcp"@ + ")}"@ == " (Tcp)}"@,
        " ("@ + "Hbone"@ + ")}"@ == " (Hbone)}"@,
        "None"@ + " (Tcp)}"@ == "None (Tcp)}"@,
        "None"@ + " (Hbone)}"@ == "None (Hbone)}"@,
{
    reveal_strlit(" (");
    reveal_strlit(")}");
    reveal_strlit("Tcp");
    reveal_strlit("Hbone");
    reveal_strlit("None");
    reveal_strlit(" (Tcp)}");
    reveal_strlit(" (Hbone)}");
    reveal_strlit("None (Tcp)}");
    reveal_strlit("None (Hbone)}");
    assert(" ("@ + "Tcp"@ + ")}"@ =~= " (Tcp)}"@);
    assert(" ("@ + "Hbone"@ + ")}"@ =~= " (Hbone)}"@);
    assert("None"@ + " (Tcp)}"@ =~= "None (Tcp)}"@);
    assert("None"@ + " (Hbone)}"@ =~= "None (Hbone)}"@);
}

/// The text of an upstream tells the port with the address.
pub proof fn law_upstream_text(us: UpstreamView)
    ensures
        ({
            let w = us.workload;
            let front = "Upstream{"@ + w.name + " at "@ + ip_text::ip_text(w.workload_ip) + ":"@
                + digits::numeral(us.port as nat, 10) + " via "@;
            match (w.gateway_ip, w.protocol) {
                (None, Protocol::Tcp) => us.text() == front + "None (Tcp)}"@,
                (None, Protocol::Hbone) => us.text() == front + "None (Hbone)}"@,
                (Some(g), Protocol::Tcp) => us.text() == front + ip_text::socket_text(g)
                    + " (Tcp)}"@,
                (Some(g), Protocol::Hbone) => us.text() == front + ip_text::socket_text(g)
                    + " (Hbone)}"@,
            }
        }),
{
    lemma_text_ends();
    let w = us.workload;
    let front = "Upstream{"@ + w.name + " at "@ + ip_text::ip_text(w.workload_ip) + ":"@
        + digits::numeral(us.port as nat, 10) + " via "@;
    let mid = match w.gateway_ip {
        None => "None"@,
        Some(g) => ip_text::socket_text(g),
    };
    let p = match w.protocol {
        Protocol::Tcp => "Tcp"@,
        Protocol::Hbone => "Hbone"@,
    };
    assert(us.text() =~= front + (mid + (" ("@ + p + ")}"@)));
    assert(us.text() =~= front + mid + (" ("@ + p + ")}"@));
}

/// The messages of errors.
pub proof fn law_error_texts(a: AddrParseError, n: usize, s: Seq<char>, d: DanglingName)
    ensures
        a.text() == "invalid IP address syntax"@,
        WorkloadErrorView::AddressParse(a).text()
            == "failed to parse address: invalid IP address syntax"@,
        WorkloadErrorView::ByteAddressParse(n).text() == "failed to parse address, had "@
            + digits::numeral(n as nat, 10) + " bytes"@,
        WorkloadErrorView::ProtocolParse(s).text() == "unknown protocol "@ + s,
        RejectReasonView::VirtualIp(a).text() == "invalid IP address syntax"@,
        forall|e: WorkloadErrorView| (#[trigger] RejectReasonView::Workload(e).text()) == e.text(),
        d.text() == "removed name "@ + d.name@ + " with ip "@ + ip_text::ip_text(d.ip)
            + ", but was not found in workload map"@,
{
    reveal_strlit("failed to parse address: ");
    reveal_strlit("invalid IP address syntax");
    reveal_strlit("failed to parse address: invalid IP address syntax");
    assert("failed to parse address: "@ + "invalid IP address syntax"@
        =~= "failed to parse address: invalid IP address syntax"@);
}

} // verus!
