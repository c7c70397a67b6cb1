//! Who a workload is.

use vstd::prelude::*;

verus! {

/// The identity that a workload proves to its peers.
#[derive(Debug, PartialEq, Eq, Hash)]
pub enum Identity {
    Spiffe { trust_domain: String, namespace: String, service_account: String },
}

/// What an [`Identity`] says.
pub enum IdentityView {
    Spiffe { trust_domain: Seq<char>, namespace: Seq<char>, service_account: Seq<char> },
}

impl View for Identity {
    type V = IdentityView;

    open spec fn view(&self) -> IdentityView {
        match self {
            Identity::Spiffe { trust_domain, namespace, service_account } => IdentityView::Spiffe {
                trust_domain: trust_domain@,
                namespace: namespace@,
                service_account: service_account@,
            },
        }
    }
}

impl Clone for Identity {
    fn clone(&self) -> (r: Identity)
        ensures
            r == *self,
    {
        match self {
            Identity::Spiffe { trust_domain, namespace, service_account } => Identity::Spiffe {
                trust_domain: trust_domain.clone(),
                namespace: namespace.clone(),
                service_account: service_account.clone(),
            },
        }
    }
}

} // verus!
