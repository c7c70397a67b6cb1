//! What the discovery service sends.

use crate::net::AddrParseError;
use crate::workload::{WorkloadError, WorkloadErrorView};
use vstd::prelude::*;

verus! {

/// How the service says that a workload is reached.
#[derive(Clone, Copy, Debug, PartialEq, Eq, Structural)]
pub enum XdsProtocol {
    Direct,
    Http,
}

/// A port of a service and the port behind it. The wire gives both 32 bits.
#[derive(Clone, Copy, Debug, PartialEq, Eq, Structural)]
pub struct Port {
    pub service_port: u32,
    pub target_port: u32,
}

/// A virtual address, as text, and the ports that are served on it.
#[derive(Debug)]
pub struct VirtualIp {
    pub vip: String,
    pub ports: Vec<Port>,
}

/// A workload as the service describes it.
///
/// `protocol` is `None` where the number on the wire names no known protocol.
/// `virtual_ips` is a map on the wire; its entries stand here in the order in which
/// they are to be taken.
#[derive(Debug)]
pub struct XdsWorkload {
    pub name: String,
    pub namespace: String,
    pub address: bytes::Bytes,
    pub waypoint_address: bytes::Bytes,
    pub protocol: Option<XdsProtocol>,
    pub service_account: String,
    pub node: String,
    pub native_hbone: bool,
    pub virtual_ips: Vec<VirtualIp>,
}

/// A resource and the name that the service knows it by.
#[derive(Debug)]
pub struct XdsResource {
    pub name: String,
    pub resource: XdsWorkload,
}

/// One change.
#[derive(Debug)]
pub enum XdsUpdate {
    Update(XdsResource),
    Remove(String),
}

impl XdsUpdate {
    /// The name of the resource that changes.
    pub open spec fn spec_name(self) -> Seq<char> {
        match self {
            XdsUpdate::Update(r) => r.name@,
            XdsUpdate::Remove(name) => name@,
        }
    }

    /// The name of the resource that changes.
    pub fn name(&self) -> (r: String)
        ensures
            r@ == self.spec_name(),
    {
        match self {
            XdsUpdate::Update(r) => r.name.clone(),
            XdsUpdate::Remove(name) => name.clone(),
        }
    }
}

/// Why a resource was not accepted: it is no workload, or one of its virtual addresses
/// cannot be read.
#[derive(Debug, PartialEq, Eq)]
pub enum RejectReason {
    Workload(WorkloadError),
    VirtualIp(AddrParseError),
}

/// What a [`RejectReason`] says.
pub enum RejectReasonView {
    Workload(WorkloadErrorView),
    VirtualIp(AddrParseError),
}

impl View for RejectReason {
    type V = RejectReasonView;

    open spec fn view(&self) -> RejectReasonView {
        match self {
            RejectReason::Workload(e) => RejectReasonView::Workload(e@),
            RejectReason::VirtualIp(e) => RejectReasonView::VirtualIp(*e),
        }
    }
}

impl RejectReasonView {
    /// The message: that of the error itself.
    pub open spec fn text(self) -> Seq<char> {
        match self {
            RejectReasonView::Workload(e) => e.text(),
            RejectReasonView::VirtualIp(e) => e.text(),
        }
    }
}

impl RejectReason {
    /// The message.
    pub fn to_string(&self) -> (r: String)
        ensures
            r@ == self@.text(),
    {
        match self {
            RejectReason::Workload(e) => e.to_string(),
            RejectReason::VirtualIp(e) => e.to_string(),
        }
    }
}

/// A resource that was not accepted, and why.
#[derive(Debug, PartialEq, Eq)]
pub struct RejectedConfig {
    pub name: String,
    pub reason: RejectReason,
}

/// What a [`RejectedConfig`] says.
pub struct RejectedView {
    pub name: Seq<char>,
    pub reason: RejectReasonView,
}

impl View for RejectedConfig {
    type V = RejectedView;

    open spec fn view(&self) -> RejectedView {
        RejectedView { name: self.name@, reason: self.reason@ }
    }
}

/// Collects what was not accepted while updates are handled.
#[derive(Debug, PartialEq, Eq)]
pub struct HandlerContext {
    pub rejects: Vec<RejectedConfig>,
}

impl View for HandlerContext {
    type V = Seq<RejectedView>;

    open spec fn view(&self) -> Seq<RejectedView> {
        Seq::new(self.rejects@.len(), |i: int| self.rejects@[i]@)
    }
}

impl HandlerContext {
    /// A context in which nothing has been refused yet.
    pub fn new() -> (r: HandlerContext)
        ensures
            r@ == Seq::<RejectedView>::empty(),
    {
        let r: HandlerContext = HandlerContext { rejects: Vec::new() };
        assert(r@ =~= Seq::<RejectedView>::empty());
        r
    }

    /// Notes that the resource was refused.
    pub fn reject(&mut self, name: String, reason: RejectReason)
        ensures
            final(self)@ == old(self)@.push(RejectedView { name: name@, reason: reason@ }),
    {
        self.rejects.push(RejectedConfig { name, reason });
        assert(self@ =~= old(self)@.push(RejectedView { name: name@, reason: reason@ }));
    }
}

} // verus!
