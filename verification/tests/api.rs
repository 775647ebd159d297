use solnet_orchestrator::api::server::{
    create_task, create_task_from_json, handle_incoming_command, handle_socket_input, priority_from_request, run_command, CommandOutcome,
    SocketAction, SocketInput, DEFAULT_TASK_PRIORITY,
};
use solnet_orchestrator::event_bus::{Event, EventBus};
use solnet_orchestrator::orchestration::scheduler::TaskScheduler;

#[test]
fn priority_defaults_and_truncates() {
    assert_eq!(priority_from_request(None), DEFAULT_TASK_PRIORITY);
    assert_eq!(priority_from_request(None), 5);
    assert_eq!(priority_from_request(Some(0)), 0);
    assert_eq!(priority_from_request(Some(255)), 255);
    assert_eq!(priority_from_request(Some(256)), 0);
    assert_eq!(priority_from_request(Some(300)), 44);
    assert_eq!(priority_from_request(Some(u64::MAX)), 255);
}

#[test]
fn rest_create_task_queues_described_task() {
    let mut s = TaskScheduler::new(EventBus::new(8));
    let id = create_task(&mut s, Some("Irrigation plan".to_string()), Some(1));
    assert_eq!(id.len(), 26);
    assert_eq!(s.len(), 1);
    let t = s.get_next_task().unwrap();
    assert_eq!(t.id, id);
    assert_eq!(t.description, "Irrigation plan");
    assert_eq!(t.priority, 1);
    assert_eq!(t.status, "pending");
}

#[test]
fn rest_create_task_defaults() {
    let mut s = TaskScheduler::new(EventBus::new(8));
    create_task(&mut s, None, None);
    let t = s.get_next_task().unwrap();
    assert_eq!(t.description, "Unnamed task");
    assert_eq!(t.priority, 5);
}

#[test]
fn ws_create_task_command() {
    let mut s = TaskScheduler::new(EventBus::new(8));
    let outcome = run_command(&mut s, Some("create_task".to_string()), None, Some(258));
    let t = s.get_next_task().unwrap();
    assert_eq!(outcome, CommandOutcome::TaskCreated { task_id: t.id.clone() });
    assert_eq!(t.description, "Unnamed task from WS");
    assert_eq!(t.priority, 2);
}

#[test]
fn ws_unknown_action_changes_nothing() {
    let mut s = TaskScheduler::new(EventBus::new(8));
    let outcome =
        run_command(&mut s, Some("create_tunnel".to_string()), Some("x".to_string()), None);
    assert_eq!(outcome, CommandOutcome::UnknownAction { action: "create_tunnel".to_string() });
    assert_eq!(s.len(), 0);
}

#[test]
fn ws_message_without_action_is_ignored() {
    let mut s = TaskScheduler::new(EventBus::new(8));
    let outcome = run_command(&mut s, None, Some("x".to_string()), Some(1));
    assert_eq!(outcome, CommandOutcome::Ignored);
    assert_eq!(s.len(), 0);
}

#[test]
fn socket_forwards_events_and_runs_commands() {
    let e = Event::TaskCreated { task_id: "t".to_string() };
    assert!(matches!(handle_socket_input(SocketInput::BusEvent(e.clone())), SocketAction::Forward(f) if f == e));
    assert!(matches!(
        handle_socket_input(SocketInput::ClientText("{}".to_string())),
        SocketAction::RunCommand(t) if t == "{}"
    ));
    assert!(matches!(handle_socket_input(SocketInput::ClientOther), SocketAction::Continue));
}

#[test]
fn socket_ends_on_failures_and_close() {
    for input in [SocketInput::BusFailed, SocketInput::SendFailed, SocketInput::ClientClosed, SocketInput::ClientGone] {
        assert!(matches!(handle_socket_input(input), SocketAction::Disconnect));
    }
}

#[test]
fn ws_text_create_task_command() {
    let bus = EventBus::new(8);
    let mut rx = bus.subscribe();
    let mut s = TaskScheduler::new(bus.clone());
    let text = r#"{"action":"create_task","description":"Irrigate zone A","priority":1}"#;
    let outcome = handle_incoming_command(&mut s, text);
    assert_eq!(s.len(), 1);
    let t = s.get_next_task().unwrap();
    assert_eq!(t.description, "Irrigate zone A");
    assert_eq!(t.priority, 1);
    assert_eq!(t.status, "pending");
    assert_eq!(t.id.len(), 26);
    assert_eq!(outcome, CommandOutcome::TaskCreated { task_id: t.id.clone() });
    assert_eq!(rx.try_recv().unwrap(), Event::TaskCreated { task_id: t.id });
    assert!(rx.try_recv().is_err());
}

#[test]
fn ws_text_fields_of_other_types_take_defaults() {
    let mut s = TaskScheduler::new(EventBus::new(8));
    let text = r#"{"action":"create_task","description":7,"priority":"high"}"#;
    handle_incoming_command(&mut s, text);
    let t = s.get_next_task().unwrap();
    assert_eq!(t.description, "Unnamed task from WS");
    assert_eq!(t.priority, 5);
}

#[test]
fn ws_text_that_is_not_json_is_ignored() {
    let mut s = TaskScheduler::new(EventBus::new(8));
    assert_eq!(handle_incoming_command(&mut s, "create_task please"), CommandOutcome::Ignored);
    assert_eq!(handle_incoming_command(&mut s, r#"{"action":3}"#), CommandOutcome::Ignored);
    assert_eq!(s.len(), 0);
}

#[test]
fn ws_text_unknown_action() {
    let mut s = TaskScheduler::new(EventBus::new(8));
    let outcome = handle_incoming_command(&mut s, r#"{"action":"create_wireguard_tunnel","target_node_id":"n"}"#);
    assert_eq!(outcome, CommandOutcome::UnknownAction { action: "create_wireguard_tunnel".to_string() });
    assert_eq!(s.len(), 0);
}

#[test]
fn rest_create_task_publishes_task_created() {
    let bus = EventBus::new(8);
    let mut rx = bus.subscribe();
    let mut s = TaskScheduler::new(bus.clone());
    let id = create_task(&mut s, None, Some(3));
    assert_eq!(rx.try_recv().unwrap(), Event::TaskCreated { task_id: id });
}

#[test]
fn session_runs_client_texts_in_order() {
    let inputs = vec![
        SocketInput::ClientText("a".to_string()),
        SocketInput::ClientOther,
        SocketInput::ClientText("b".to_string()),
        SocketInput::ClientClosed,
        SocketInput::ClientText("c".to_string()),
    ];
    let mut run = Vec::new();
    for input in inputs {
        match handle_socket_input(input) {
            SocketAction::RunCommand(t) => run.push(t),
            SocketAction::Disconnect => break,
            _ => {}
        }
    }
    assert_eq!(run, vec!["a".to_string(), "b".to_string()]);
}

#[test]
fn rest_json_body_creates_task() {
    let mut s = TaskScheduler::new(EventBus::new(8));
    let id = create_task_from_json(&mut s, r#"{"description":"Soil check","priority":260}"#);
    let t = s.get_next_task().unwrap();
    assert_eq!(t.id, id);
    assert_eq!(t.description, "Soil check");
    assert_eq!(t.priority, 4);
    create_task_from_json(&mut s, r#"{"action":"x","description":["no"]}"#);
    let t = s.get_next_task().unwrap();
    assert_eq!(t.description, "Unnamed task");
    assert_eq!(t.priority, 5);
}

#[test]
fn ws_text_key_is_field_name_not_value() {
    let mut s = TaskScheduler::new(EventBus::new(8));
    let outcome = handle_incoming_command(&mut s, r#"{"description":"create_task","action":"noop"}"#);
    assert_eq!(outcome, CommandOutcome::UnknownAction { action: "noop".to_string() });
    assert_eq!(s.len(), 0);
}

#[test]
fn session_with_bus_events_runs_texts_in_order() {
    let ev = Event::NodeJoined { node_id: "n".to_string() };
    let inputs = vec![
        SocketInput::BusEvent(ev.clone()),
        SocketInput::ClientText("a".to_string()),
        SocketInput::BusEvent(ev),
        SocketInput::ClientText("b".to_string()),
        SocketInput::ClientGone,
    ];
    let mut run = Vec::new();
    let mut forwarded = 0;
    for input in inputs {
        match handle_socket_input(input) {
            SocketAction::RunCommand(t) => run.push(t),
            SocketAction::Forward(_) => forwarded += 1,
            SocketAction::Disconnect => break,
            SocketAction::Continue => {}
        }
    }
    assert_eq!(run, vec!["a".to_string(), "b".to_string()]);
    assert_eq!(forwarded, 2);
}
