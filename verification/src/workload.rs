//! Workloads and the upstreams that stand for them.

use crate::bytes_spec;
use crate::digits;
use crate::identity::{Identity, IdentityView};
use crate::ip_text;
use crate::net::{AddrParseError, IpAddr, SocketAddr};
use crate::xds::{XdsProtocol, XdsWorkload};
use vstd::arithmetic::power::*;
use vstd::prelude::*;

verus! {

/// How to talk to a workload.
#[derive(Clone, Copy, Debug, PartialEq, Eq, Hash, Structural)]
pub enum Protocol {
    Tcp,
    Hbone,
}

impl Default for Protocol {
    fn default() -> (r: Protocol)
        ensures
            r == Protocol::Tcp,
    {
        Protocol::Tcp
    }
}

/// Why a workload was not accepted.
#[derive(Debug, PartialEq, Eq)]
pub enum WorkloadError {
    AddressParse(AddrParseError),
    ByteAddressParse(usize),
    ProtocolParse(String),
}

/// What a [`WorkloadError`] says.
pub enum WorkloadErrorView {
    AddressParse(AddrParseError),
    ByteAddressParse(usize),
    ProtocolParse(Seq<char>),
}

impl View for WorkloadError {
    type V = WorkloadErrorView;

    open spec fn view(&self) -> WorkloadErrorView {
        match self {
            WorkloadError::AddressParse(e) => WorkloadErrorView::AddressParse(*e),
            WorkloadError::ByteAddressParse(n) => WorkloadErrorView::ByteAddressParse(*n),
            WorkloadError::ProtocolParse(s) => WorkloadErrorView::ProtocolParse(s@),
        }
    }
}

impl From<AddrParseError> for WorkloadError {
    fn from(e: AddrParseError) -> (r: WorkloadError) {
        WorkloadError::AddressParse(e)
    }
}

impl vstd::std_specs::convert::FromSpecImpl<AddrParseError> for WorkloadError {
    open spec fn obeys_from_spec() -> bool {
        true
    }

    open spec fn from_spec(e: AddrParseError) -> WorkloadError {
        WorkloadError::AddressParse(e)
    }
}

impl WorkloadErrorView {
    /// The message.
    pub open spec fn text(self) -> Seq<char> {
        match self {
            WorkloadErrorView::AddressParse(e) => "failed to parse address: "@ + e.text(),
            WorkloadErrorView::ByteAddressParse(n) => "failed to parse address, had "@
                + digits::numeral(n as nat, 10) + " bytes"@,
            WorkloadErrorView::ProtocolParse(s) => "unknown protocol "@ + s,
        }
    }
}

impl WorkloadError {
    /// The message.
    pub fn to_string(&self) -> (r: String)
        ensures
            r@ == self@.text(),
    {
        let mut out: String = String::new();
        match self {
            WorkloadError::AddressParse(e) => {
                out.append("failed to parse address: ");
                out.append(e.to_string().as_str());
            },
            WorkloadError::ByteAddressParse(n) => {
                out.append("failed to parse address, had ");
                digits::push_numeral(&mut out, *n as u64, 10);
                out.append(" bytes");
            },
            WorkloadError::ProtocolParse(s) => {
                out.append("unknown protocol ");
                out.append(s.as_str());
            },
        }
        assert(out@ =~= self@.text());
        out
    }
}

impl Protocol {
    /// The name of the protocol.
    pub open spec fn text(self) -> Seq<char> {
        match self {
            Protocol::Tcp => "Tcp"@,
            Protocol::Hbone => "Hbone"@,
        }
    }

    /// The protocol for what the service says, or the error where it says nothing known.
    pub open spec fn of_xds(value: Option<XdsProtocol>) -> Result<Protocol, WorkloadErrorView> {
        match value {
            Some(XdsProtocol::Http) => Ok(Protocol::Hbone),
            Some(XdsProtocol::Direct) => Ok(Protocol::Hbone),
            None => Err(WorkloadErrorView::ProtocolParse("unknown type"@)),
        }
    }

    /// Appends the name of the protocol.
    fn push_text(self, out: &mut String)
        ensures
            final(out)@ == old(out)@ + self.text(),
    {
        match self {
            Protocol::Tcp => out.append("Tcp"),
            Protocol::Hbone => out.append("Hbone"),
        }
    }
}

impl TryFrom<Option<XdsProtocol>> for Protocol {
    type Error = WorkloadError;

    /// The protocol for what the service says.
    fn try_from(value: Option<XdsProtocol>) -> (r: Result<Protocol, WorkloadError>)
        ensures
            match r {
                Ok(p) => Protocol::of_xds(value) == Ok::<Protocol, WorkloadErrorView>(p),
                Err(e) => Protocol::of_xds(value) == Err::<Protocol, WorkloadErrorView>(e@),
            },
    {
        match value {
            Some(XdsProtocol::Http) => Ok(Protocol::Hbone),
            Some(XdsProtocol::Direct) => Ok(Protocol::Hbone),
            None => Err(WorkloadError::ProtocolParse("unknown type".to_owned())),
        }
    }
}

// A result that holds text is known by its view, which `try_from` itself states.
impl vstd::std_specs::convert::TryFromSpecImpl<Option<XdsProtocol>> for Protocol {
    open spec fn obeys_try_from_spec() -> bool {
        false
    }

    open spec fn try_from_spec(value: Option<XdsProtocol>) -> Result<Protocol, WorkloadError> {
        arbitrary()
    }
}

/// A workload of the mesh.
#[derive(Debug, PartialEq, Eq, Hash)]
pub struct Workload {
    pub workload_ip: IpAddr,
    pub waypoint_address: Option<IpAddr>,
    pub gateway_ip: Option<SocketAddr>,
    pub protocol: Protocol,
    pub name: String,
    pub namespace: String,
    pub service_account: String,
    pub node: String,
    pub native_hbone: bool,
}

/// What a [`Workload`] says.
pub struct WorkloadView {
    pub workload_ip: IpAddr,
    pub waypoint_address: Option<IpAddr>,
    pub gateway_ip: Option<SocketAddr>,
    pub protocol: Protocol,
    pub name: Seq<char>,
    pub namespace: Seq<char>,
    pub service_account: Seq<char>,
    pub node: Seq<char>,
    pub native_hbone: bool,
}

impl View for Workload {
    type V = WorkloadView;

    open spec fn view(&self) -> WorkloadView {
        WorkloadView {
            workload_ip: self.workload_ip,
            waypoint_address: self.waypoint_address,
            gateway_ip: self.gateway_ip,
            protocol: self.protocol,
            name: self.name@,
            namespace: self.namespace@,
            service_account: self.service_account@,
            node: self.node@,
            native_hbone: self.native_hbone,
        }
    }
}

impl Clone for Workload {
    fn clone(&self) -> (r: Workload)
        ensures
            r == *self,
    {
        Workload {
            workload_ip: self.workload_ip,
            waypoint_address: self.waypoint_address,
            gateway_ip: self.gateway_ip,
            protocol: self.protocol,
            name: self.name.clone(),
            namespace: self.namespace.clone(),
            service_account: self.service_account.clone(),
            node: self.node.clone(),
            native_hbone: self.native_hbone,
        }
    }
}

/// The text of a gateway, or `None`.
pub open spec fn gateway_text(gateway: Option<SocketAddr>) -> Seq<char> {
    match gateway {
        Some(addr) => ip_text::socket_text(addr),
        None => "None"@,
    }
}

/// Appends the text of a gateway, or `None`.
fn push_gateway(out: &mut String, gateway: Option<SocketAddr>)
    ensures
        final(out)@ == old(out)@ + gateway_text(gateway),
{
    match gateway {
        Some(addr) => ip_text::push_socket(out, addr),
        None => out.append("None"),
    }
}

/// What eight-bit numbers are as wider ones.
pub open spec fn widened(b: Seq<u8>) -> Seq<u16> {
    Seq::new(b.len(), |i: int| b[i] as u16)
}

/// The address that bytes in network order make: none without bytes, one of the older
/// family with four, one of the newer family with sixteen.
pub open spec fn ip_of_network_order(b: Seq<u8>) -> Result<Option<IpAddr>, WorkloadErrorView> {
    if b.len() == 0 {
        Ok(None)
    } else if b.len() == 4 {
        Ok(Some(IpAddr::V4(digits::place_value(widened(b), 256) as u32)))
    } else if b.len() == 16 {
        Ok(Some(IpAddr::V6(digits::place_value(widened(b), 256) as u128)))
    } else {
        Err(WorkloadErrorView::ByteAddressParse(b.len() as usize))
    }
}

/// Reads an address in network order.
pub fn byte_to_ip(b: &bytes::Bytes) -> (r: Result<Option<IpAddr>, WorkloadError>)
    ensures
        match r {
            Ok(ip) => ip_of_network_order(bytes_spec::bytes_content(*b)) == Ok::<
                Option<IpAddr>,
                WorkloadErrorView,
            >(ip),
            Err(e) => ip_of_network_order(bytes_spec::bytes_content(*b)) == Err::<
                Option<IpAddr>,
                WorkloadErrorView,
            >(e@),
        },
{
    let n: usize = b.len();
    if n == 0 {
        return Ok(None);
    }
    if n != 4 && n != 16 {
        return Err(WorkloadError::ByteAddressParse(n));
    }
    let content: &[u8] = &**b;
    let mut octets: Vec<u16> = Vec::new();
    let mut i: usize = 0;
    while i < n
        invariant
            i <= n,
            n == content@.len(),
            octets@ == widened(content@).take(i as int),
        decreases n - i,
    {
        octets.push(content[i] as u16);
        i = i + 1;
        assert(octets@ =~= widened(content@).take(i as int));
    }
    proof {
        assert(octets@ =~= widened(content@));
        reveal(pow);
        reveal_with_fuel(pow, 17);
        assert(pow(256, 4) == 0x1_0000_0000);
        assert(pow(256, 16) == u128::MAX + 1);
        digits::lemma_place_value_bound(octets@, 256);
    }
    let v: u128 = digits::from_places(&octets, 256);
    if n == 4 {
        Ok(Some(IpAddr::V4(v as u32)))
    } else {
        Ok(Some(IpAddr::V6(v)))
    }
}

impl WorkloadView {
    /// The name under which a workload is kept: its own name, a slash and its namespace.
    pub open spec fn resource_name(self) -> Seq<char> {
        self.name + "/"@ + self.namespace
    }

    /// The text of a workload.
    pub open spec fn text(self) -> Seq<char> {
        "Workload{"@ + self.name + " at "@ + ip_text::ip_text(self.workload_ip) + " via "@
            + gateway_text(self.gateway_ip) + " ("@ + self.protocol.text() + ")}"@
    }

    /// The workload that the service describes, or the first error: in the address of its
    /// waypoint, then in its own, then in its protocol.
    pub open spec fn of_xds(r: XdsWorkload) -> Result<WorkloadView, WorkloadErrorView> {
        match (
            ip_of_network_order(bytes_spec::bytes_content(r.waypoint_address)),
            ip_of_network_order(bytes_spec::bytes_content(r.address)),
            Protocol::of_xds(r.protocol),
        ) {
            (Err(e), _, _) => Err(e),
            (_, Err(e), _) => Err(e),
            (_, Ok(None), _) => Err(WorkloadErrorView::ByteAddressParse(0)),
            (_, _, Err(e)) => Err(e),
            (Ok(waypoint), Ok(Some(ip)), Ok(protocol)) => Ok(
                WorkloadView {
                    workload_ip: ip,
                    waypoint_address: waypoint,
                    gateway_ip: None,
                    protocol,
                    name: r.name@,
                    namespace: r.namespace@,
                    service_account: if r.service_account@.len() == 0 {
                        "default"@
                    } else {
                        r.service_account@
                    },
                    node: r.node@,
                    native_hbone: r.native_hbone,
                },
            ),
        }
    }
}

impl Workload {
    /// The identity that the workload proves.
    pub fn identity(&self) -> (r: Identity)
        ensures
            r@ == (IdentityView::Spiffe {
                trust_domain: "cluster.local"@,
                namespace: self@.namespace,
                service_account: self@.service_account,
            }),
    {
        Identity::Spiffe {
            trust_domain: "cluster.local".to_owned(),
            namespace: self.namespace.clone(),
            service_account: self.service_account.clone(),
        }
    }

    /// The name under which the workload is kept.
    pub fn resource_name(&self) -> (r: String)
        ensures
            r@ == self@.resource_name(),
    {
        let mut out: String = self.name.clone();
        out.append("/");
        out.append(self.namespace.as_str());
        out
    }

    /// The text of the workload.
    pub fn to_string(&self) -> (r: String)
        ensures
            r@ == self@.text(),
    {
        let mut out: String = String::new();
        out.append("Workload{");
        out.append(self.name.as_str());
        out.append(" at ");
        ip_text::push_ip(&mut out, self.workload_ip);
        out.append(" via ");
        push_gateway(&mut out, self.gateway_ip);
        out.append(" (");
        self.protocol.push_text(&mut out);
        out.append(")}");
        assert(out@ =~= self@.text());
        out
    }
}

impl TryFrom<&XdsWorkload> for Workload {
    type Error = WorkloadError;

    /// The workload that the service describes.
    fn try_from(resource: &XdsWorkload) -> (r: Result<Workload, WorkloadError>)
        ensures
            match r {
                Ok(w) => WorkloadView::of_xds(*resource) == Ok::<WorkloadView, WorkloadErrorView>(
                    w@,
                ),
                Err(e) => WorkloadView::of_xds(*resource) == Err::<WorkloadView, WorkloadErrorView>(
                    e@,
                ),
            },
    {
        let waypoint: Option<IpAddr> = match byte_to_ip(&resource.waypoint_address) {
            Ok(ip) => ip,
            Err(e) => {
                return Err(e);
            },
        };
        let address: IpAddr = match byte_to_ip(&resource.address) {
            Ok(Some(ip)) => ip,
            Ok(None) => {
                return Err(WorkloadError::ByteAddressParse(0));
            },
            Err(e) => {
                return Err(e);
            },
        };
        let protocol: Protocol = match Protocol::try_from(resource.protocol) {
            Ok(p) => p,
            Err(e) => {
                return Err(e);
            },
        };
        let service_account: String = if resource.service_account.as_str().is_empty() {
            "default".to_owned()
        } else {
            resource.service_account.clone()
        };
        Ok(
            Workload {
                workload_ip: address,
                waypoint_address: waypoint,
                gateway_ip: None,
                protocol,
                name: resource.name.clone(),
                namespace: resource.namespace.clone(),
                service_account,
                node: resource.node.clone(),
                native_hbone: resource.native_hbone,
            },
        )
    }
}

// A result that holds text is known by its view, which `try_from` itself states.
impl vstd::std_specs::convert::TryFromSpecImpl<&XdsWorkload> for Workload {
    open spec fn obeys_try_from_spec() -> bool {
        false
    }

    open spec fn try_from_spec(resource: &XdsWorkload) -> Result<Workload, WorkloadError> {
        arbitrary()
    }
}

/// A workload, and the port of it that is wanted.
#[derive(Debug, PartialEq, Eq, Hash)]
pub struct Upstream {
    pub workload: Workload,
    pub port: u16,
}

/// What an [`Upstream`] says.
pub struct UpstreamView {
    pub workload: WorkloadView,
    pub port: u16,
}

impl View for Upstream {
    type V = UpstreamView;

    open spec fn view(&self) -> UpstreamView {
        UpstreamView { workload: self.workload@, port: self.port }
    }
}

impl Clone for Upstream {
    fn clone(&self) -> (r: Upstream)
        ensures
            r == *self,
    {
        Upstream { workload: self.workload.clone(), port: self.port }
    }
}

impl UpstreamView {
    /// The text of an upstream.
    pub open spec fn text(self) -> Seq<char> {
        "Upstream{"@ + self.workload.name + " at "@ + ip_text::ip_text(self.workload.workload_ip)
            + ":"@ + digits::numeral(self.port as nat, 10) + " via "@ + gateway_text(
            self.workload.gateway_ip,
        ) + " ("@ + self.workload.protocol.text() + ")}"@
    }
}

impl Upstream {
    /// The text of the upstream.
    pub fn to_string(&self) -> (r: String)
        ensures
            r@ == self@.text(),
    {
        let mut out: String = String::new();
        out.append("Upstream{");
        out.append(self.workload.name.as_str());
        out.append(" at ");
        ip_text::push_ip(&mut out, self.workload.workload_ip);
        out.append(":");
        digits::push_numeral(&mut out, self.port as u64, 10);
        out.append(" via ");
        push_gateway(&mut out, self.workload.gateway_ip);
        out.append(" (");
        self.workload.protocol.push_text(&mut out);
        out.append(")}");
        assert(out@ =~= self@.text());
        out
    }
}

} // verus!
