use event_bus::EnclaveEvent;
use event_bus::EventBus;
use event_bus::Listener;

/// Dispatch a delivery plan: hand one copy of `event` to each listed
/// recipient, in plan order. This is the fire-and-forget loop a runtime
/// performs around the bus; an id with no listener is skipped silently.
fn dispatch(plan: &[u64], listeners: &mut [Listener], event: &EnclaveEvent) {
    for id in plan {
        if let Some(listener) = listeners.get_mut(*id as usize) {
            listener.handle(event.clone());
        }
    }
}

fn keyshare(e3_id: &str, keyshare: &str) -> EnclaveEvent {
    EnclaveEvent::KeyshareCreated {
        e3_id: e3_id.to_string(),
        keyshare: keyshare.to_string(),
    }
}

fn computation(e3_id: &str, nodecount: u32, sortition_seed: u32) -> EnclaveEvent {
    EnclaveEvent::ComputationRequested {
        e3_id: e3_id.to_string(),
        nodecount,
        sortition_seed,
    }
}

#[test]
fn test_main() {
    let mut bus = EventBus::new();
    let mut listeners = vec![Listener::new()];

    bus.subscribe("*".to_string(), 0);

    let event = keyshare("123", "Hello");
    let plan = bus.publish(&event);
    dispatch(&plan, &mut listeners, &event);

    let logs = listeners[0].get_logs();
    assert_eq!(logs, vec![keyshare("123", "Hello")]);
}

#[test]
fn test_event_type_names() {
    assert_eq!(keyshare("a", "b").event_type(), "KeyshareCreated");
    assert_eq!(computation("a", 3, 9).event_type(), "ComputationRequested");
}

#[test]
fn test_event_type_independent_of_payload() {
    assert_eq!(
        keyshare("123", "Hello").event_type(),
        keyshare("456", "World").event_type()
    );
    assert_eq!(
        computation("1", 2, 3).event_type(),
        computation("9", 8, 7).event_type()
    );
}

#[test]
fn test_kind_specific_subscribers_are_isolated() {
    let mut bus = EventBus::new();
    let mut listeners = vec![Listener::new(), Listener::new()];

    bus.subscribe("KeyshareCreated".to_string(), 0);
    bus.subscribe("ComputationRequested".to_string(), 1);

    let ks = keyshare("123", "Hello");
    let cr = computation("123", 5, 42);
    let plan = bus.publish(&ks);
    dispatch(&plan, &mut listeners, &ks);
    let plan = bus.publish(&cr);
    dispatch(&plan, &mut listeners, &cr);

    assert_eq!(listeners[0].get_logs(), vec![keyshare("123", "Hello")]);
    assert_eq!(listeners[1].get_logs(), vec![computation("123", 5, 42)]);
}

#[test]
fn test_duplicate_subscription_delivers_twice() {
    let mut bus = EventBus::new();
    let mut listeners = vec![Listener::new()];

    bus.subscribe("KeyshareCreated".to_string(), 0);
    bus.subscribe("KeyshareCreated".to_string(), 0);

    let ks = keyshare("123", "Hello");
    let cr = computation("123", 5, 42);
    let plan = bus.publish(&ks);
    dispatch(&plan, &mut listeners, &ks);
    let plan = bus.publish(&cr);
    dispatch(&plan, &mut listeners, &cr);

    assert_eq!(
        listeners[0].get_logs(),
        vec![keyshare("123", "Hello"), keyshare("123", "Hello")]
    );
}

#[test]
fn test_publish_before_subscribe_is_not_buffered() {
    let mut bus = EventBus::new();
    let mut listeners = vec![Listener::new()];

    let early = keyshare("early", "missed");
    let plan = bus.publish(&early);
    assert_eq!(plan, Vec::<u64>::new());
    dispatch(&plan, &mut listeners, &early);

    bus.subscribe("KeyshareCreated".to_string(), 0);

    let late = keyshare("late", "seen");
    let plan = bus.publish(&late);
    dispatch(&plan, &mut listeners, &late);

    assert_eq!(listeners[0].get_logs(), vec![keyshare("late", "seen")]);
}

#[test]
fn test_wildcard_notified_before_kind_subscriber() {
    let mut bus = EventBus::new();

    bus.subscribe("KeyshareCreated".to_string(), 1);
    bus.subscribe("*".to_string(), 0);

    let plan = bus.publish(&keyshare("123", "Hello"));
    assert_eq!(plan, vec![0, 1]);
}

#[test]
fn test_subscription_order_preserved_within_kind() {
    let mut bus = EventBus::new();

    bus.subscribe("KeyshareCreated".to_string(), 4);
    bus.subscribe("KeyshareCreated".to_string(), 2);
    bus.subscribe("*".to_string(), 9);
    bus.subscribe("KeyshareCreated".to_string(), 7);

    let plan = bus.publish(&keyshare("123", "Hello"));
    assert_eq!(plan, vec![9, 4, 2, 7]);
}

#[test]
fn test_unknown_kind_subscription_receives_nothing() {
    let mut bus = EventBus::new();
    let mut listeners = vec![Listener::new()];

    bus.subscribe("SomethingElse".to_string(), 0);

    let ks = keyshare("123", "Hello");
    let cr = computation("123", 5, 42);
    let plan = bus.publish(&ks);
    dispatch(&plan, &mut listeners, &ks);
    let plan = bus.publish(&cr);
    dispatch(&plan, &mut listeners, &cr);

    assert_eq!(listeners[0].get_logs(), Vec::new());
}

#[test]
fn test_wildcard_receives_all_hundred_in_order() {
    let mut bus = EventBus::new();
    let mut listeners = vec![Listener::new()];

    bus.subscribe("*".to_string(), 0);

    let mut expected = Vec::new();
    for i in 0..100u32 {
        let event = if i % 2 == 0 {
            keyshare(&i.to_string(), "payload")
        } else {
            computation(&i.to_string(), i, i)
        };
        let plan = bus.publish(&event);
        dispatch(&plan, &mut listeners, &event);
        expected.push(event);
    }

    let logs = listeners[0].get_logs();
    assert_eq!(logs.len(), 100);
    assert_eq!(logs, expected);
}

#[test]
fn test_get_logs_is_a_snapshot() {
    let mut bus = EventBus::new();
    let mut listeners = vec![Listener::new()];

    bus.subscribe("*".to_string(), 0);

    let first = keyshare("1", "a");
    let plan = bus.publish(&first);
    dispatch(&plan, &mut listeners, &first);

    let snapshot = listeners[0].get_logs();

    let second = keyshare("2", "b");
    let plan = bus.publish(&second);
    dispatch(&plan, &mut listeners, &second);

    assert_eq!(snapshot, vec![keyshare("1", "a")]);
    assert_eq!(
        listeners[0].get_logs(),
        vec![keyshare("1", "a"), keyshare("2", "b")]
    );
}
