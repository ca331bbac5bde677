use std::sync::{Arc, Mutex};

use event_broker::{Client, Observer, Producer, TransportError};

#[derive(Clone)]
struct MockClient {
    sent_messages: Arc<Mutex<Vec<String>>>,
}

impl Client for MockClient {
    fn send(&self, message: &str) -> Result<(), TransportError> {
        self.sent_messages.lock().unwrap().push(message.to_string());
        Ok(())
    }

    fn protocol_name(&self) -> &str {
        "MOCK"
    }

    fn address(&self) -> &str {
        "mock://test"
    }
}

#[test]
fn test_producer_creation() {
    let mock_client = MockClient { sent_messages: Arc::new(Mutex::new(Vec::new())) };
    let producer = Producer::new("test-producer".to_string(), mock_client);

    assert_eq!(producer.id(), "test-producer");
    assert_eq!(producer.protocol_name(), "MOCK");
    assert_eq!(producer.address(), "mock://test");
}

#[test]
fn test_producer_forward() {
    let sent = Arc::new(Mutex::new(Vec::new()));
    let mock_client = MockClient { sent_messages: Arc::clone(&sent) };
    let producer = Producer::new("test-producer".to_string(), mock_client);

    producer.forward("test message").unwrap();

    let messages = sent.lock().unwrap();
    assert_eq!(messages.len(), 1);
    assert_eq!(messages[0], "test message");
}

#[test]
fn test_producer_subscribe() {
    let mock_client = MockClient { sent_messages: Arc::new(Mutex::new(Vec::new())) };
    let mut producer = Producer::new("test-producer".to_string(), mock_client);

    assert!(!producer.is_subscribed("event1"));
    producer.subscribe("event1");
    assert!(producer.is_subscribed("event1"));
}

#[test]
fn test_producer_unsubscribe() {
    let mock_client = MockClient { sent_messages: Arc::new(Mutex::new(Vec::new())) };
    let mut producer = Producer::new("test-producer".to_string(), mock_client);

    producer.subscribe("event1");
    assert!(producer.is_subscribed("event1"));
    producer.unsubscribe("event1");
    assert!(!producer.is_subscribed("event1"));
}

#[test]
fn test_producer_subscribe_many() {
    let mock_client = MockClient { sent_messages: Arc::new(Mutex::new(Vec::new())) };
    let mut producer = Producer::new("test-producer".to_string(), mock_client);

    producer.subscribe_many(&["event1", "event2", "event3"]);
    assert!(producer.is_subscribed("event1"));
    assert!(producer.is_subscribed("event2"));
    assert!(producer.is_subscribed("event3"));

    let events = producer.subscribed_events();
    assert_eq!(events.len(), 3);
}

#[test]
fn test_producer_observer_trait() {
    let sent = Arc::new(Mutex::new(Vec::new()));
    let mock_client = MockClient { sent_messages: Arc::clone(&sent) };
    let mut producer = Producer::new("test-producer".to_string(), mock_client);

    producer.subscribe("event1");
    producer.notify("observer message").unwrap();

    let messages = sent.lock().unwrap();
    assert_eq!(messages.len(), 1);
    assert_eq!(messages[0], "observer message");
}
