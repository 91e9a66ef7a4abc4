//! Bootstrap planning for the discovery engine.
//!
//! Every configured bootstrap address should embed a target peer identifier
//! (a `/p2p/` component): such an address is inserted into the routing
//! table and dialed. An address without one is degraded but still
//! attempted: it is only dialed. Text that is no address at all is skipped
//! and reported, never fatal.

use vstd::prelude::*;

verus! {

/// Whether the text parses as a dialable address.
pub uninterp spec fn is_valid_multiaddr(s: Seq<char>) -> bool;

/// The peer identifier embedded in the address text, if any.
pub uninterp spec fn embedded_peer_id(s: Seq<char>) -> Option<Seq<char>>;

/// Relies on `Multiaddr`'s `FromStr`, whose success depends on the text
/// alone, and on `Multiaddr::iter` with `Protocol::P2p`: the embedded peer
/// identifier, printed in base58, is a function of the address text alone.
#[verifier::external_body]
fn parse_bootstrap_addr(addr: &str) -> (r: Option<Option<String>>)
    ensures
        r is Some <==> is_valid_multiaddr(addr@),
        r is Some ==> match (r->Some_0, embedded_peer_id(addr@)) {
            (Some(p), Some(q)) => p@ == q,
            (None, None) => true,
            _ => false,
        },
{
    match addr.parse::<libp2p::Multiaddr>() {
        Ok(ma) => Some(
            ma.iter().find_map(
                |p|
                    match p {
                        libp2p::multiaddr::Protocol::P2p(pid) => Some(pid.to_string()),
                        _ => None,
                    },
            ),
        ),
        Err(_) => None,
    }
}

/// What to do with one configured bootstrap address.
#[derive(Debug, Clone)]
pub enum BootstrapAction {
    /// The address embeds a peer identifier: insert it into the routing
    /// table and dial it.
    AddAndDial { peer_id: String, address: String },
    /// No peer identifier in the address: degraded, dial it anyway.
    DialOnly { address: String },
    /// Not an address: skip it and report it.
    SkipInvalid { address: String },
}

/// Ghost image of a `BootstrapAction`.
#[verifier::ext_equal]
pub enum BootstrapActionView {
    AddAndDial { peer_id: Seq<char>, address: Seq<char> },
    DialOnly { address: Seq<char> },
    SkipInvalid { address: Seq<char> },
}

impl View for BootstrapAction {
    type V = BootstrapActionView;

    open spec fn view(&self) -> BootstrapActionView {
        match self {
            BootstrapAction::AddAndDial { peer_id, address } => BootstrapActionView::AddAndDial {
                peer_id: peer_id@,
                address: address@,
            },
            BootstrapAction::DialOnly { address } => BootstrapActionView::DialOnly {
                address: address@,
            },
            BootstrapAction::SkipInvalid { address } => BootstrapActionView::SkipInvalid {
                address: address@,
            },
        }
    }
}

/// The action one bootstrap address calls for.
pub open spec fn spec_bootstrap_action(addr: Seq<char>) -> BootstrapActionView {
    if !is_valid_multiaddr(addr) {
        BootstrapActionView::SkipInvalid { address: addr }
    } else {
        match embedded_peer_id(addr) {
            Some(p) => BootstrapActionView::AddAndDial { peer_id: p, address: addr },
            None => BootstrapActionView::DialOnly { address: addr },
        }
    }
}

/// Plan the bootstrap: one action per configured address, in order.
pub fn plan_bootstrap(addresses: &Vec<String>) -> (r: Vec<BootstrapAction>)
    ensures
        r@.len() == addresses@.len(),
        forall|i: int|
            0 <= i < r@.len() ==> (#[trigger] r@[i])@ == spec_bootstrap_action(addresses@[i]@),
{
    let n = addresses.len();
    let mut r: Vec<BootstrapAction> = Vec::new();
    let mut i: usize = 0;
    while i < n
        invariant
            n == addresses@.len(),
            i <= n,
            r@.len() == i,
            forall|j: int|
                0 <= j < i ==> (#[trigger] r@[j])@ == spec_bootstrap_action(addresses@[j]@),
        decreases n - i,
    {
        let addr = &addresses[i];
        let action = match parse_bootstrap_addr(addr.as_str()) {
            Some(Some(pid)) => BootstrapAction::AddAndDial {
                peer_id: pid,
                address: crate::registry::clone_string(addr),
            },
            Some(None) => BootstrapAction::DialOnly {
                address: crate::registry::clone_string(addr),
            },
            None => BootstrapAction::SkipInvalid {
                address: crate::registry::clone_string(addr),
            },
        };
        r.push(action);
        i = i + 1;
    }
    r
}

} // verus!
