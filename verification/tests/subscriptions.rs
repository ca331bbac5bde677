use event_broker::EventSubscriptions;

#[test]
fn test_event_subscriptions_creation() {
    let subs = EventSubscriptions::new();
    assert_eq!(subs.get_events().len(), 0);
}

#[test]
fn test_event_subscriptions_subscribe() {
    let mut subs = EventSubscriptions::new();
    subs.subscribe("event1");
    assert!(subs.is_subscribed("event1"));
    assert!(!subs.is_subscribed("event2"));
}

#[test]
fn test_event_subscriptions_unsubscribe() {
    let mut subs = EventSubscriptions::new();
    subs.subscribe("event1");
    assert!(subs.is_subscribed("event1"));
    subs.unsubscribe("event1");
    assert!(!subs.is_subscribed("event1"));
}

#[test]
fn test_event_subscriptions_subscribe_many() {
    let mut subs = EventSubscriptions::new();
    subs.subscribe_many(&["event1", "event2", "event3"]);
    assert!(subs.is_subscribed("event1"));
    assert!(subs.is_subscribed("event2"));
    assert!(subs.is_subscribed("event3"));

    let events = subs.get_events();
    assert_eq!(events.len(), 3);
}

#[test]
fn test_event_subscriptions_clear() {
    let mut subs = EventSubscriptions::new();
    subs.subscribe_many(&["event1", "event2", "event3"]);
    assert_eq!(subs.get_events().len(), 3);
    subs.clear();
    assert_eq!(subs.get_events().len(), 0);
}

#[test]
fn test_event_subscriptions_duplicate_subscribe() {
    let mut subs = EventSubscriptions::new();
    subs.subscribe("event1");
    subs.subscribe("event1");
    let events = subs.get_events();
    assert_eq!(events.len(), 1);
}
