use solnet_orchestrator::event_bus::{Event, EventBus};
use solnet_orchestrator::orchestration::node_manager::{Node, NodeManager};

fn node(id: &str, status: &str) -> Node {
    Node { id: id.to_string(), status: status.to_string() }
}

#[test]
fn unknown_node_is_not_found() {
    let m = NodeManager::new(EventBus::new(8));
    assert!(m.get_node("200:1234::1").is_none());
}

#[test]
fn registered_node_is_found() {
    let mut m = NodeManager::new(EventBus::new(8));
    m.register_node(node("200:1234::1", "online"));
    let n = m.get_node("200:1234::1").unwrap();
    assert_eq!(n.id, "200:1234::1");
    assert_eq!(n.status, "online");
    assert!(m.get_node("200:1234::2").is_none());
}

#[test]
fn registering_again_replaces_node() {
    let mut m = NodeManager::new(EventBus::new(8));
    m.register_node(node("a", "online"));
    m.register_node(node("b", "online"));
    m.register_node(node("a", "offline"));
    assert_eq!(m.get_node("a").unwrap().status, "offline");
    assert_eq!(m.get_node("b").unwrap().status, "online");
}

#[test]
fn register_node_publishes_node_joined() {
    let bus = EventBus::new(8);
    let mut rx = bus.subscribe();
    let mut m = NodeManager::new(bus.clone());
    m.register_node(node("a", "online"));
    assert_eq!(rx.try_recv().unwrap(), Event::NodeJoined { node_id: "a".to_string() });
    m.register_node(node("a", "online"));
    assert_eq!(rx.try_recv().unwrap(), Event::NodeJoined { node_id: "a".to_string() });
}

#[test]
fn register_or_update_publishes_only_for_new_nodes() {
    let bus = EventBus::new(8);
    let mut rx = bus.subscribe();
    let mut m = NodeManager::new(bus.clone());
    m.register_or_update_node("a".to_string(), "connected".to_string());
    assert_eq!(rx.try_recv().unwrap(), Event::NodeJoined { node_id: "a".to_string() });
    m.register_or_update_node("a".to_string(), "remote".to_string());
    assert!(rx.try_recv().is_err());
    assert_eq!(m.get_node("a").unwrap().status, "remote");
}

#[test]
fn publishing_without_subscribers_is_harmless() {
    let mut bus = EventBus::new(1);
    bus.publish(Event::Heartbeat { node_id: "a".to_string() });
    let mut rx = bus.subscribe();
    bus.publish(Event::TaskCompleted { task_id: "t".to_string() });
    assert_eq!(rx.try_recv().unwrap(), Event::TaskCompleted { task_id: "t".to_string() });
}

#[test]
fn node_ids_lists_each_registered_node_once() {
    let mut m = NodeManager::new(EventBus::new(8));
    assert!(m.node_ids().is_empty());
    m.register_node(node("b", "online"));
    m.register_node(node("a", "online"));
    m.register_or_update_node("b".to_string(), "remote".to_string());
    m.register_or_update_node("c".to_string(), "connected".to_string());
    assert_eq!(m.node_ids(), vec!["b".to_string(), "a".to_string(), "c".to_string()]);
}

#[test]
fn lookup_after_registrations_finds_last_status() {
    let mut m = NodeManager::new(EventBus::new(8));
    for (id, status) in [("x", "online"), ("y", "remote"), ("x", "connected")] {
        m.register_node(node(id, status));
    }
    assert_eq!(m.get_node("x").unwrap().status, "connected");
    assert_eq!(m.get_node("y").unwrap().status, "remote");
    assert!(m.get_node("z").is_none());
}

#[test]
fn cloned_bus_shares_its_channel() {
    let bus = EventBus::new(4);
    let mut rx = bus.subscribe();
    let mut copy = bus.clone();
    copy.publish(Event::Heartbeat { node_id: "n".to_string() });
    assert_eq!(rx.try_recv().unwrap(), Event::Heartbeat { node_id: "n".to_string() });
}

#[test]
fn bus_buffers_at_least_its_capacity() {
    let mut bus = EventBus::new(3);
    let mut rx = bus.subscribe();
    for i in 0..3 {
        bus.publish(Event::TaskCompleted { task_id: i.to_string() });
    }
    for i in 0..3 {
        assert_eq!(rx.try_recv().unwrap(), Event::TaskCompleted { task_id: i.to_string() });
    }
}

#[test]
fn bus_capacity_rounds_up_to_power_of_two() {
    let mut bus = EventBus::new(3);
    let mut rx = bus.subscribe();
    for i in 0..4 {
        bus.publish(Event::TaskCompleted { task_id: i.to_string() });
    }
    for i in 0..4 {
        assert_eq!(rx.try_recv().unwrap(), Event::TaskCompleted { task_id: i.to_string() });
    }
    let mut rx2 = bus.subscribe();
    for i in 0..5 {
        bus.publish(Event::TaskCompleted { task_id: i.to_string() });
    }
    assert!(rx2.try_recv().is_err());
}
