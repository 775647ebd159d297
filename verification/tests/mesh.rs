use solnet_orchestrator::event_bus::{Event, EventBus};
use solnet_orchestrator::mesh::yggdrasil::{
    admin_url_or_default, api_url, peer_status, peers_or_empty, sync_to_node_manager, YggdrasilPeer,
    YggdrasilPeersResponse, YggdrasilSelf,
};
use solnet_orchestrator::orchestration::node_manager::NodeManager;

fn peer(address: Option<&str>, remote: Option<bool>) -> YggdrasilPeer {
    YggdrasilPeer { address: address.map(|a| a.to_string()), coords: None, public_key: None, remote }
}

fn me(address: Option<&str>) -> YggdrasilSelf {
    YggdrasilSelf {
        address: address.map(|a| a.to_string()),
        coords: Some(vec![1, 2]),
        subnet: None,
        public_key: None,
    }
}

#[test]
fn api_url_joins_base_and_path() {
    assert_eq!(api_url("http://localhost:9001", "/api/self"), "http://localhost:9001/api/self");
    assert_eq!(api_url("http://localhost:9001/", "/api/peers"), "http://localhost:9001/api/peers");
    assert_eq!(api_url("http://localhost:9001///", "/api/self"), "http://localhost:9001/api/self");
    assert_eq!(api_url("", "/api/self"), "/api/self");
    assert_eq!(api_url("///", "/api/self"), "/api/self");
    assert_eq!(api_url("http://höst/ä/", "/api/self"), "http://höst/ä/api/self");
}

#[test]
fn admin_url_defaults_to_localhost() {
    assert_eq!(admin_url_or_default(None), "http://localhost:9001");
    assert_eq!(admin_url_or_default(Some("http://10.0.0.1:9001".to_string())), "http://10.0.0.1:9001");
}

#[test]
fn missing_peer_list_is_empty() {
    assert!(peers_or_empty(YggdrasilPeersResponse { peers: None }).is_empty());
    let list = peers_or_empty(YggdrasilPeersResponse { peers: Some(vec![peer(Some("a"), None)]) });
    assert_eq!(list.len(), 1);
    assert_eq!(list[0].address.as_deref(), Some("a"));
}

#[test]
fn peer_status_follows_remote_flag() {
    assert_eq!(peer_status(Some(true)), "remote");
    assert_eq!(peer_status(Some(false)), "connected");
    assert_eq!(peer_status(None), "connected");
}

#[test]
fn sync_registers_self_and_peers() {
    let bus = EventBus::new(16);
    let mut rx = bus.subscribe();
    let mut m = NodeManager::new(bus.clone());
    let peers = vec![peer(Some("p1"), Some(true)), peer(None, Some(true)), peer(Some("p2"), None)];
    sync_to_node_manager(&mut m, Some(me(Some("self"))), Some(peers));
    assert_eq!(m.get_node("self").unwrap().status, "online");
    assert_eq!(m.get_node("p1").unwrap().status, "remote");
    assert_eq!(m.get_node("p2").unwrap().status, "connected");
    let joined: Vec<Event> = std::iter::from_fn(|| rx.try_recv().ok()).collect();
    assert_eq!(
        joined,
        vec![
            Event::NodeJoined { node_id: "self".to_string() },
            Event::NodeJoined { node_id: "p1".to_string() },
            Event::NodeJoined { node_id: "p2".to_string() },
        ]
    );
}

#[test]
fn sync_with_failed_requests_changes_nothing() {
    let mut m = NodeManager::new(EventBus::new(16));
    sync_to_node_manager(&mut m, None, None);
    assert!(m.get_node("self").is_none());
    sync_to_node_manager(&mut m, Some(me(None)), Some(vec![]));
    assert!(m.get_node("self").is_none());
}

#[test]
fn later_report_of_same_address_wins() {
    let mut m = NodeManager::new(EventBus::new(16));
    let peers = vec![peer(Some("x"), Some(true)), peer(Some("x"), Some(false))];
    sync_to_node_manager(&mut m, Some(me(Some("x"))), Some(peers));
    assert_eq!(m.get_node("x").unwrap().status, "connected");
}

#[test]
fn syncing_twice_is_syncing_once() {
    let bus = EventBus::new(16);
    let mut rx = bus.subscribe();
    let mut m = NodeManager::new(bus.clone());
    let peers = vec![peer(Some("p1"), Some(true)), peer(Some("p2"), Some(false))];
    sync_to_node_manager(&mut m, Some(me(Some("self"))), Some(peers.clone()));
    let first: Vec<Event> = std::iter::from_fn(|| rx.try_recv().ok()).collect();
    assert_eq!(first.len(), 3);
    sync_to_node_manager(&mut m, Some(me(Some("self"))), Some(peers));
    assert!(rx.try_recv().is_err());
    assert_eq!(m.get_node("self").unwrap().status, "online");
    assert_eq!(m.get_node("p1").unwrap().status, "remote");
    assert_eq!(m.get_node("p2").unwrap().status, "connected");
}
