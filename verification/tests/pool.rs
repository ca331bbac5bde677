use std::sync::{Arc, Mutex};

use event_broker::{Client, ProducerPool, TransportError};

#[derive(Clone)]
struct MockClient {
    sent_messages: Arc<Mutex<Vec<String>>>,
}

impl Client for MockClient {
    fn send(&self, message: &str) -> Result<(), TransportError> {
        self.sent_messages.lock().unwrap().push(message.to_string());
        Ok(())
    }

    fn protocol_name(&self) -> &str {
        "MOCK"
    }

    fn address(&self) -> &str {
        "mock://test"
    }
}

fn mock() -> (Arc<Mutex<Vec<String>>>, MockClient) {
    let sent = Arc::new(Mutex::new(Vec::new()));
    let client = MockClient { sent_messages: Arc::clone(&sent) };
    (sent, client)
}

#[test]
fn test_producer_pool_creation() {
    let pool: ProducerPool<MockClient> = ProducerPool::new();
    assert_eq!(pool.count(), 0);
}

#[test]
fn test_add_producer() {
    let mut pool = ProducerPool::new();
    let (_, client) = mock();

    pool.add_producer("producer-1".to_string(), client).unwrap();
    assert_eq!(pool.count(), 1);
    assert!(pool.has_producer("producer-1"));
}

#[test]
fn test_remove_producer() {
    let mut pool = ProducerPool::new();
    let (_, client) = mock();

    pool.add_producer("producer-1".to_string(), client).unwrap();
    assert_eq!(pool.count(), 1);

    pool.remove_producer("producer-1");
    assert_eq!(pool.count(), 0);
    assert!(!pool.has_producer("producer-1"));
}

#[test]
fn test_forward_to_producer() {
    let mut pool = ProducerPool::new();
    let (sent, client) = mock();

    pool.add_producer("producer-1".to_string(), client).unwrap();
    pool.forward_to("producer-1", "test message").unwrap();

    let messages = sent.lock().unwrap();
    assert_eq!(messages.len(), 1);
    assert_eq!(messages[0], "test message");
}

#[test]
fn test_forward_to_all() {
    let mut pool = ProducerPool::new();
    let (sent1, client1) = mock();
    let (sent2, client2) = mock();

    pool.add_producer("producer-1".to_string(), client1).unwrap();
    pool.add_producer("producer-2".to_string(), client2).unwrap();

    let results = pool.forward_to_all("broadcast message");
    assert_eq!(results.len(), 2);

    for (_, result) in results {
        assert!(result.is_ok());
    }

    assert_eq!(sent1.lock().unwrap().len(), 1);
    assert_eq!(sent2.lock().unwrap().len(), 1);
}

#[test]
fn test_add_producer_with_events() {
    let mut pool = ProducerPool::new();
    let (_, client) = mock();

    pool.add_producer_with_events("producer-1".to_string(), client, &["event1", "event2"])
        .unwrap();

    let events = pool.get_subscribed_events();
    assert!(events.contains(&"event1".to_string()));
    assert!(events.contains(&"event2".to_string()));

    let subscribers = pool.get_event_subscribers("event1");
    assert_eq!(subscribers.len(), 1);
    assert_eq!(subscribers[0], "producer-1");
}

#[test]
fn test_forward_to_event() {
    let mut pool = ProducerPool::new();
    let (sent1, client1) = mock();
    let (sent2, client2) = mock();

    pool.add_producer_with_events("producer-1".to_string(), client1, &["event1"]).unwrap();
    pool.add_producer_with_events("producer-2".to_string(), client2, &["event2"]).unwrap();

    let results = pool.forward_to_event("event1", "event message");
    assert_eq!(results.len(), 1);
    assert_eq!(sent1.lock().unwrap().len(), 1);
    assert_eq!(sent2.lock().unwrap().len(), 0);
}

#[test]
fn test_subscribe_unsubscribe_event() {
    let mut pool = ProducerPool::new();
    let (_, client) = mock();

    pool.add_producer("producer-1".to_string(), client).unwrap();
    pool.subscribe_producer_to_event("producer-1", "event1").unwrap();

    let subscribers = pool.get_event_subscribers("event1");
    assert_eq!(subscribers.len(), 1);

    pool.unsubscribe_producer_from_event("producer-1", "event1").unwrap();
    let subscribers = pool.get_event_subscribers("event1");
    assert_eq!(subscribers.len(), 0);
}

#[test]
fn test_get_producer_ids() {
    let mut pool = ProducerPool::new();
    let (_, client) = mock();

    pool.add_producer("producer-1".to_string(), client.clone()).unwrap();
    pool.add_producer("producer-2".to_string(), client).unwrap();

    let ids = pool.get_producer_ids();
    assert_eq!(ids.len(), 2);
    assert!(ids.contains(&"producer-1".to_string()));
    assert!(ids.contains(&"producer-2".to_string()));
}

#[test]
fn test_forward_to_unknown_producer_fails() {
    let mut pool = ProducerPool::new();
    let (_, client) = mock();
    pool.add_producer("known".to_string(), client).unwrap();

    let res = pool.forward_to("missing-id", "m");
    match res {
        Err(TransportError::NotFound(m)) => {
            assert_eq!(m, "Producer not found: missing-id");
        }
        _ => panic!("expected a not-found error"),
    }
    assert_eq!(pool.count(), 1);
    assert!(pool.has_producer("known"));
}

#[test]
fn test_subscribe_unknown_producer_fails() {
    let mut pool: ProducerPool<MockClient> = ProducerPool::new();

    let res = pool.subscribe_producer_to_event("missing-id", "e");
    match res {
        Err(TransportError::NotFound(m)) => {
            assert_eq!(m, "Producer not found: missing-id");
        }
        _ => panic!("expected a not-found error"),
    }
    assert_eq!(pool.count(), 0);
    assert_eq!(pool.get_subscribed_events().len(), 0);
}

#[test]
fn test_remove_producer_purges_index() {
    let mut pool = ProducerPool::new();
    let (_, client1) = mock();
    let (_, client2) = mock();

    pool.add_producer_with_events("only".to_string(), client1, &["solo", "shared"]).unwrap();
    pool.add_producer_with_events("other".to_string(), client2, &["shared"]).unwrap();

    let removed = pool.remove_producer("only");
    assert!(removed.is_some());
    assert_eq!(removed.unwrap().id(), "only");

    let events = pool.get_subscribed_events();
    assert!(!events.contains(&"solo".to_string()));
    assert!(events.contains(&"shared".to_string()));
    assert_eq!(pool.get_event_subscribers("solo").len(), 0);
    assert_eq!(pool.get_event_subscribers("shared"), vec!["other".to_string()]);
}

#[test]
fn test_re_adding_producer_resets_subscriptions() {
    let mut pool = ProducerPool::new();
    let (_, client1) = mock();
    let (_, client2) = mock();

    pool.add_producer_with_events("p".to_string(), client1, &["stale"]).unwrap();
    pool.add_producer("p".to_string(), client2).unwrap();

    assert_eq!(pool.count(), 1);
    assert_eq!(pool.get_event_subscribers("stale").len(), 0);
    assert_eq!(pool.get_subscribed_events().len(), 0);
}

#[test]
fn test_forward_to_many_records_each_outcome() {
    let mut pool = ProducerPool::new();
    let (sent, client) = mock();
    pool.add_producer("present".to_string(), client).unwrap();

    let results = pool.forward_to_many(&["present", "absent"], "hello");
    assert_eq!(results.len(), 2);
    assert_eq!(results[0].0, "present");
    assert!(results[0].1.is_ok());
    assert_eq!(results[1].0, "absent");
    assert!(results[1].1.is_err());
    assert_eq!(sent.lock().unwrap().len(), 1);
}

#[test]
fn test_forward_to_event_failure_does_not_abort_batch() {
    struct FailingClient;

    impl Client for FailingClient {
        fn send(&self, _message: &str) -> Result<(), TransportError> {
            Err(TransportError::Delivery("connection refused".to_string()))
        }

        fn protocol_name(&self) -> &str {
            "MOCK"
        }

        fn address(&self) -> &str {
            "mock://down"
        }
    }

    let mut pool = ProducerPool::new();
    pool.add_producer_with_events("down".to_string(), FailingClient, &["e"]).unwrap();
    pool.add_producer_with_events("up".to_string(), FailingClient, &["e"]).unwrap();

    let results = pool.forward_to_event("e", "m");
    assert_eq!(results.len(), 2);
    assert!(results.iter().all(|(_, r)| r.is_err()));
    let mut ids: Vec<String> = results.into_iter().map(|(id, _)| id).collect();
    ids.sort();
    assert_eq!(ids, vec!["down".to_string(), "up".to_string()]);
}

#[test]
fn test_forward_to_unknown_event_is_empty() {
    let mut pool = ProducerPool::new();
    let (sent, client) = mock();
    pool.add_producer_with_events("p".to_string(), client, &["known"]).unwrap();

    let results = pool.forward_to_event("unknown", "m");
    assert_eq!(results.len(), 0);
    assert_eq!(sent.lock().unwrap().len(), 0);
}

#[test]
fn test_get_producer_reports_subscriptions() {
    let mut pool = ProducerPool::new();
    let (_, client) = mock();
    pool.add_producer_with_events("p".to_string(), client, &["a", "b"]).unwrap();

    let p = pool.get_producer("p").unwrap();
    assert!(p.is_subscribed("a"));
    assert!(p.is_subscribed("b"));
    assert!(!p.is_subscribed("c"));
    assert!(pool.get_producer("q").is_none());
}
