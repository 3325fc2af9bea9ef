//! Discovery of peers on the local network: what a node advertises about
//! itself, and what it makes of the services that it resolves.
//!
//! A resolved service is handed over as plain values: the two TXT
//! properties of interest as the resolver holds them, and the addresses in
//! the order in which the resolver gives them.

use crate::text::{
    decimal_text, lemma_u16_text_round_trip, parse_u16, spec_parse_u16, text_eq, u16_to_text,
};
use vstd::prelude::*;
use vstd::string::StringExecFns;

verus! {

/// The service type that nodes advertise and browse.
pub const SERVICE_TYPE: &'static str = "_memo-node._tcp.local.";

/// TXT key of the node id.
pub const TXT_NODE_ID: &'static str = "node_id";

/// TXT key of the replication port.
pub const TXT_GRPC_PORT: &'static str = "grpc_port";

/// A peer as discovery reports it.
#[derive(Debug)]
pub struct DiscoveredPeer {
    pub node_id: String,
    pub address: String,
    pub grpc_port: u16,
}

/// Mathematical value of a [`DiscoveredPeer`].
pub struct DiscoveredPeerView {
    pub node_id: Seq<char>,
    pub address: Seq<char>,
    pub grpc_port: u16,
}

impl View for DiscoveredPeer {
    type V = DiscoveredPeerView;

    open spec fn view(&self) -> DiscoveredPeerView {
        DiscoveredPeerView {
            node_id: self.node_id@,
            address: self.address@,
            grpc_port: self.grpc_port,
        }
    }
}

/// What a node registers with the responder.
#[derive(Debug)]
pub struct Advertisement {
    pub service_type: String,
    pub instance_name: String,
    pub host_name: String,
    pub port: u16,
    /// The TXT record as pairs of key and value: the node id, then the port.
    pub node_id_property: (String, String),
    pub grpc_port_property: (String, String),
}

/// The advertisement of the node `node_id` whose replication server listens
/// on `grpc_port`: the instance is named after the node, the host is the
/// node id followed by `.local.`, and the TXT record repeats id and port.
pub fn advertisement(node_id: &str, grpc_port: u16) -> (ad: Advertisement)
    ensures
        ad.service_type@ == SERVICE_TYPE@,
        ad.instance_name@ == node_id@,
        ad.host_name@ == node_id@ + ".local."@,
        ad.port == grpc_port,
        ad.node_id_property.0@ == TXT_NODE_ID@,
        ad.node_id_property.1@ == node_id@,
        ad.grpc_port_property.0@ == TXT_GRPC_PORT@,
        ad.grpc_port_property.1@ == decimal_text(grpc_port as nat),
{
    let mut host_name = node_id.to_owned();
    host_name.append(".local.");
    Advertisement {
        service_type: SERVICE_TYPE.to_owned(),
        instance_name: node_id.to_owned(),
        host_name,
        port: grpc_port,
        node_id_property: (TXT_NODE_ID.to_owned(), node_id.to_owned()),
        grpc_port_property: (TXT_GRPC_PORT.to_owned(), u16_to_text(grpc_port)),
    }
}

/// A service that the resolver has resolved.
#[derive(Debug)]
pub struct ResolvedService {
    /// Value of the TXT property `node_id`, if the service has one.
    pub node_id: Option<String>,
    /// Value of the TXT property `grpc_port`, if the service has one.
    pub grpc_port: Option<String>,
    /// The addresses of the service.
    pub addresses: Vec<String>,
}

/// Whether a resolved service is a peer to report, and which: it names a
/// node other than this one, its port reads as a 16-bit number, and it has
/// an address, of which the first is taken.
pub open spec fn spec_parse_service_info(
    node_id: Option<Seq<char>>,
    grpc_port: Option<Seq<char>>,
    addresses: Seq<Seq<char>>,
    own_node_id: Seq<char>,
) -> Option<DiscoveredPeerView> {
    if node_id is Some && node_id->Some_0 != own_node_id && grpc_port is Some && spec_parse_u16(
        grpc_port->Some_0,
    ) is Some && addresses.len() > 0 {
        Some(
            DiscoveredPeerView {
                node_id: node_id->Some_0,
                address: addresses[0],
                grpc_port: spec_parse_u16(grpc_port->Some_0)->Some_0,
            },
        )
    } else {
        None
    }
}

/// Views of a list of strings.
pub open spec fn string_views(strings: Seq<String>) -> Seq<Seq<char>> {
    Seq::new(strings.len(), |i: int| strings[i]@)
}

/// Turns a resolved service into a peer, unless it is this node itself or
/// lacks what is needed to reach it.
pub fn parse_service_info(info: &ResolvedService, own_node_id: &str) -> (peer: Option<
    DiscoveredPeer,
>)
    ensures
        match peer {
            Some(found) => spec_parse_service_info(
                crate::storage::option_string_view(info.node_id),
                crate::storage::option_string_view(info.grpc_port),
                string_views(info.addresses@),
                own_node_id@,
            ) == Some(found@),
            None => spec_parse_service_info(
                crate::storage::option_string_view(info.node_id),
                crate::storage::option_string_view(info.grpc_port),
                string_views(info.addresses@),
                own_node_id@,
            ) is None,
        },
{
    let node_id = match &info.node_id {
        Some(id) => id,
        None => {
            return None;
        },
    };
    if text_eq(node_id.as_str(), own_node_id) {
        return None;
    }
    let grpc_port = match &info.grpc_port {
        Some(text) => match parse_u16(text.as_str()) {
            Some(port) => port,
            None => {
                return None;
            },
        },
        None => {
            return None;
        },
    };
    if info.addresses.len() == 0 {
        return None;
    }
    assert(string_views(info.addresses@)[0] == info.addresses@[0]@);
    Some(DiscoveredPeer { node_id: node_id.clone(), address: info.addresses[0].clone(), grpc_port })
}

/// What the browser reports.
#[derive(Debug)]
pub enum ServiceEvent {
    /// A service was resolved.
    Resolved(ResolvedService),
    /// The service with this full name is gone.
    Removed(String),
    SearchStarted,
    SearchStopped,
    /// Anything else, such as a service found but not yet resolved.
    Other,
}

/// The peer to report for a browser event: the peer of a resolved service,
/// nothing for every other event. Peers are not deduplicated here.
pub fn on_service_event(event: &ServiceEvent, own_node_id: &str) -> (peer: Option<DiscoveredPeer>)
    ensures
        match event {
            ServiceEvent::Resolved(info) => match peer {
                Some(found) => spec_parse_service_info(
                    crate::storage::option_string_view(info.node_id),
                    crate::storage::option_string_view(info.grpc_port),
                    string_views(info.addresses@),
                    own_node_id@,
                ) == Some(found@),
                None => spec_parse_service_info(
                    crate::storage::option_string_view(info.node_id),
                    crate::storage::option_string_view(info.grpc_port),
                    string_views(info.addresses@),
                    own_node_id@,
                ) is None,
            },
            _ => peer is None,
        },
{
    match event {
        ServiceEvent::Resolved(info) => parse_service_info(info, own_node_id),
        _ => None,
    }
}

/// What one node advertises, another node reads back: when the TXT values
/// of an advertisement for `node_id` and `grpc_port` are resolved together
/// with at least one address by a node with another id, the peer reported
/// carries that id, that port and the first address.
pub proof fn lemma_advertisement_is_found(
    node_id: Seq<char>,
    grpc_port: u16,
    addresses: Seq<Seq<char>>,
    own_node_id: Seq<char>,
)
    requires
        node_id != own_node_id,
        addresses.len() > 0,
    ensures
        spec_parse_service_info(
            Some(node_id),
            Some(decimal_text(grpc_port as nat)),
            addresses,
            own_node_id,
        ) == Some(DiscoveredPeerView { node_id, address: addresses[0], grpc_port }),
{
    lemma_u16_text_round_trip(grpc_port);
}

} // verus!
