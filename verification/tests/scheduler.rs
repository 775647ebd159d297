use solnet_orchestrator::event_bus::{Event, EventBus};
use solnet_orchestrator::orchestration::scheduler::{Task, TaskScheduler, Timestamp};

fn task(ulid: u128, priority: u8, description: &str) -> Task {
    Task::from_parts(ulid, Timestamp { secs: 1_700_000_000, nanos: 123_456_789 }, description.to_string(), priority)
}

#[test]
fn new_task_is_pending_with_ulid_identifier() {
    let t = Task::new("Initial Soilnova telemetry analysis".to_string(), 2);
    assert_eq!(t.status, "pending");
    assert_eq!(t.priority, 2);
    assert_eq!(t.description, "Initial Soilnova telemetry analysis");
    assert_eq!(t.id.chars().count(), 26);
    assert!(t.id.chars().all(|c| "0123456789ABCDEFGHJKMNPQRSTVWXYZ".contains(c)));
    assert!(t.created_at.secs > 1_600_000_000);
    assert!(t.created_at.nanos < 2_000_000_000);
}

#[test]
fn task_identifier_is_crockford_text_of_ulid() {
    let t = task(0x41414141414141414141414141414141, 1, "x");
    assert_eq!(t.id, "21850M2GA1850M2GA1850M2GA1");
    let zero = task(0, 1, "x");
    assert_eq!(zero.id, "00000000000000000000000000");
    let max = task(u128::MAX, 1, "x");
    assert_eq!(max.id, "7ZZZZZZZZZZZZZZZZZZZZZZZZZ");
    assert_eq!(t.created_at, Timestamp { secs: 1_700_000_000, nanos: 123_456_789 });
}

#[test]
fn two_new_tasks_have_distinct_identifiers() {
    let a = Task::new("a".to_string(), 1);
    let b = Task::new("b".to_string(), 1);
    assert_ne!(a.id, b.id);
}

#[test]
fn empty_scheduler_has_no_next_task() {
    let mut s = TaskScheduler::new(EventBus::new(16));
    assert_eq!(s.len(), 0);
    assert!(s.get_next_task().is_none());
    assert_eq!(s.len(), 0);
}

#[test]
fn lower_number_runs_first() {
    let mut s = TaskScheduler::new(EventBus::new(16));
    s.add_task(task(1, 5, "five"));
    s.add_task(task(2, 0, "zero"));
    s.add_task(task(3, 9, "nine"));
    s.add_task(task(4, 2, "two"));
    assert_eq!(s.len(), 4);
    let order: Vec<u8> = std::iter::from_fn(|| s.get_next_task()).map(|t| t.priority).collect();
    assert_eq!(order, vec![0, 2, 5, 9]);
    assert_eq!(s.len(), 0);
}

#[test]
fn equal_priorities_leave_in_order_added() {
    let mut s = TaskScheduler::new(EventBus::new(16));
    s.add_task(task(1, 3, "first"));
    s.add_task(task(2, 1, "urgent"));
    s.add_task(task(3, 3, "second"));
    s.add_task(task(4, 3, "third"));
    let order: Vec<String> = std::iter::from_fn(|| s.get_next_task()).map(|t| t.description).collect();
    assert_eq!(order, vec!["urgent", "first", "second", "third"]);
}

#[test]
fn taking_conserves_tasks() {
    let mut s = TaskScheduler::new(EventBus::new(16));
    for (i, p) in [4u8, 4, 1, 7, 0, 7].iter().enumerate() {
        s.add_task(task(i as u128, *p, &format!("t{}", i)));
    }
    let mut seen: Vec<String> = Vec::new();
    while let Some(t) = s.get_next_task() {
        seen.push(t.description);
    }
    seen.sort();
    assert_eq!(seen, vec!["t0", "t1", "t2", "t3", "t4", "t5"]);
}

#[test]
fn most_urgent_added_task_runs_next() {
    let mut s = TaskScheduler::new(EventBus::new(16));
    s.add_task(task(1, 3, "a"));
    s.add_task(task(2, 4, "b"));
    let urgent = task(3, 0, "urgent");
    s.add_task(urgent.clone());
    assert_eq!(s.get_next_task(), Some(urgent));
    assert_eq!(s.len(), 2);
}

#[test]
fn add_task_publishes_task_created() {
    let bus = EventBus::new(16);
    let mut rx = bus.subscribe();
    let mut s = TaskScheduler::new(bus.clone());
    let t = task(7, 1, "x");
    let id = t.id.clone();
    s.add_task(t);
    assert_eq!(rx.try_recv().unwrap(), Event::TaskCreated { task_id: id });
    s.get_next_task();
    assert!(rx.try_recv().is_err());
}

#[test]
fn len_counts_added_minus_taken() {
    let mut s = TaskScheduler::new(EventBus::new(16));
    let mut added = 0usize;
    let mut taken = 0usize;
    for step in 0..12u128 {
        if step % 3 == 2 {
            if s.get_next_task().is_some() {
                taken += 1;
            }
        } else {
            s.add_task(task(step, (step % 4) as u8, "t"));
            added += 1;
        }
        assert_eq!(s.len(), added - taken);
    }
    while s.get_next_task().is_some() {
        taken += 1;
    }
    assert!(s.get_next_task().is_none());
    assert_eq!(added, taken);
}

#[test]
fn draining_gives_sorted_permutation_then_none() {
    let mut s = TaskScheduler::new(EventBus::new(16));
    let priorities = [9u8, 3, 3, 0, 255, 7, 0];
    for (i, p) in priorities.iter().enumerate() {
        s.add_task(task(i as u128, *p, &format!("t{}", i)));
    }
    let drained: Vec<Task> = std::iter::from_fn(|| s.get_next_task()).collect();
    let got: Vec<u8> = drained.iter().map(|t| t.priority).collect();
    let mut expected = priorities.to_vec();
    expected.sort();
    assert_eq!(got, expected);
    assert!(s.get_next_task().is_none());
}

#[test]
fn ulid_text_sorts_as_value() {
    let values = [0u128, 1, 31, 32, 1 << 80, (1 << 80) + 5, u128::MAX - 1, u128::MAX];
    for w in values.windows(2) {
        let a = task(w[0], 1, "a").id;
        let b = task(w[1], 1, "b").id;
        assert!(a < b, "{} !< {}", a, b);
    }
}

#[test]
fn tasks_made_later_have_later_ids() {
    let millis = |t: &Task| t.created_at.secs as i128 * 1000 + (t.created_at.nanos / 1_000_000) as i128;
    let a = Task::new("a".to_string(), 1);
    // Wait until the clock has passed a's millisecond, then make b: b's ULID
    // is read after that point.
    let mut probe = Task::new("probe".to_string(), 1);
    while millis(&probe) <= millis(&a) {
        probe = Task::new("probe".to_string(), 1);
    }
    let b = Task::new("b".to_string(), 1);
    assert!(a.id < b.id);
    assert!((a.created_at.secs, a.created_at.nanos) <= (b.created_at.secs, b.created_at.nanos));
}
