use memo_node::sync::discovery::{
    advertisement, on_service_event, parse_service_info, ResolvedService, ServiceEvent,
    SERVICE_TYPE,
};

fn service(node_id: Option<&str>, port: Option<&str>, addresses: &[&str]) -> ResolvedService {
    ResolvedService {
        node_id: node_id.map(|s| s.to_string()),
        grpc_port: port.map(|s| s.to_string()),
        addresses: addresses.iter().map(|s| s.to_string()).collect(),
    }
}

#[test]
fn a_node_advertises_its_id_and_port() {
    let ad = advertisement("node-a", 50051);
    assert_eq!(ad.service_type, "_memo-node._tcp.local.");
    assert_eq!(ad.service_type, SERVICE_TYPE);
    assert_eq!(ad.instance_name, "node-a");
    assert_eq!(ad.host_name, "node-a.local.");
    assert_eq!(ad.port, 50051);
    assert_eq!(ad.node_id_property, ("node_id".to_string(), "node-a".to_string()));
    assert_eq!(ad.grpc_port_property, ("grpc_port".to_string(), "50051".to_string()));
}

#[test]
fn a_resolved_service_of_another_node_is_a_peer() {
    let info = service(Some("node-b"), Some("50051"), &["192.168.1.7", "fe80::1"]);
    let peer = parse_service_info(&info, "node-a").unwrap();
    assert_eq!(peer.node_id, "node-b");
    assert_eq!(peer.address, "192.168.1.7");
    assert_eq!(peer.grpc_port, 50051);
}

#[test]
fn the_node_does_not_discover_itself() {
    let info = service(Some("node-a"), Some("50051"), &["192.168.1.7"]);
    assert!(parse_service_info(&info, "node-a").is_none());
}

#[test]
fn a_service_that_lacks_something_is_no_peer() {
    assert!(parse_service_info(&service(None, Some("1"), &["10.0.0.1"]), "a").is_none());
    assert!(parse_service_info(&service(Some("b"), None, &["10.0.0.1"]), "a").is_none());
    assert!(parse_service_info(&service(Some("b"), Some("x"), &["10.0.0.1"]), "a").is_none());
    assert!(parse_service_info(&service(Some("b"), Some("70000"), &["10.0.0.1"]), "a").is_none());
    assert!(parse_service_info(&service(Some("b"), Some(""), &["10.0.0.1"]), "a").is_none());
    assert!(parse_service_info(&service(Some("b"), Some("1"), &[]), "a").is_none());
}

#[test]
fn what_is_advertised_is_found() {
    let ad = advertisement("node-b", 443);
    let info = service(Some(&ad.node_id_property.1), Some(&ad.grpc_port_property.1), &["10.1.2.3"]);
    let peer = parse_service_info(&info, "node-a").unwrap();
    assert_eq!(peer.node_id, "node-b");
    assert_eq!(peer.grpc_port, 443);
    assert_eq!(peer.address, "10.1.2.3");
}

#[test]
fn only_resolved_services_are_reported() {
    let resolved = ServiceEvent::Resolved(service(Some("b"), Some("9"), &["10.0.0.1"]));
    assert_eq!(on_service_event(&resolved, "a").unwrap().node_id, "b");
    assert!(on_service_event(&resolved, "b").is_none());
    assert!(on_service_event(&ServiceEvent::Removed("b._memo-node._tcp.local.".to_string()), "a")
        .is_none());
    assert!(on_service_event(&ServiceEvent::SearchStarted, "a").is_none());
    assert!(on_service_event(&ServiceEvent::SearchStopped, "a").is_none());
    assert!(on_service_event(&ServiceEvent::Other, "a").is_none());
}

#[test]
fn the_same_peer_is_reported_every_time() {
    let resolved = ServiceEvent::Resolved(service(Some("b"), Some("9"), &["10.0.0.1"]));
    for _ in 0..3 {
        let peer = on_service_event(&resolved, "a").unwrap();
        assert_eq!(peer.node_id, "b");
        assert_eq!(peer.grpc_port, 9);
    }
}
