use event_broker::{process_registration_command, ProducerPool, TcpClient, TransportError};

fn new_pool() -> ProducerPool<TcpClient> {
    ProducerPool::new()
}

#[test]
fn test_register_command_creates_producer() {
    let mut pool = new_pool();
    let resp = process_registration_command("REGISTER c1 tcp://127.0.0.1:9000", &mut pool);
    assert_eq!(resp.unwrap(), "Producer 'c1' registered");
    assert!(pool.has_producer("c1"));
    let p = pool.get_producer("c1").unwrap();
    assert_eq!(p.client().address(), "127.0.0.1:9000");
}

#[test]
fn test_register_command_with_events() {
    let mut pool = new_pool();
    let resp = process_registration_command("REGISTER c1 TCP://10.0.0.5:9000 a b", &mut pool);
    assert_eq!(resp.unwrap(), "Producer 'c1' registered with events: [\"a\", \"b\"]");
    assert!(pool.get_event_subscribers("a").contains(&"c1".to_string()));
    assert!(pool.get_event_subscribers("b").contains(&"c1".to_string()));
}

#[test]
fn test_register_command_keyword_is_case_insensitive() {
    let mut pool = new_pool();
    let resp = process_registration_command("register c1 tcp://127.0.0.1:9000", &mut pool);
    assert!(resp.is_ok());
    assert!(pool.has_producer("c1"));
}

#[test]
fn test_register_command_rejects_bad_uri() {
    let mut pool = new_pool();
    let resp = process_registration_command("REGISTER c1 127.0.0.1:9000", &mut pool);
    match resp {
        Err(TransportError::InvalidInput(m)) => {
            assert_eq!(m, "Invalid URI format. Expected: protocol://address");
        }
        _ => panic!("expected an invalid-input error"),
    }
    assert_eq!(pool.count(), 0);
}

#[test]
fn test_register_command_rejects_unknown_protocol() {
    let mut pool = new_pool();
    let resp = process_registration_command("REGISTER c1 udp://127.0.0.1:9000", &mut pool);
    match resp {
        Err(TransportError::InvalidInput(m)) => {
            assert_eq!(m, "Unsupported protocol: udp");
        }
        _ => panic!("expected an invalid-input error"),
    }
    assert_eq!(pool.count(), 0);
}

#[test]
fn test_register_command_requires_arguments() {
    let mut pool = new_pool();
    let resp = process_registration_command("REGISTER c1", &mut pool);
    match resp {
        Err(TransportError::InvalidInput(m)) => {
            assert_eq!(m, "Usage: REGISTER <id> <protocol>://<address> [events...]");
        }
        _ => panic!("expected an invalid-input error"),
    }
}

#[test]
fn test_subscribe_command() {
    let mut pool = new_pool();
    process_registration_command("REGISTER c1 tcp://127.0.0.1:9000", &mut pool).unwrap();
    let resp = process_registration_command("SUBSCRIBE c1 heartbeat", &mut pool);
    assert_eq!(resp.unwrap(), "Producer 'c1' subscribed to event 'heartbeat'");
    assert!(pool.get_event_subscribers("heartbeat").contains(&"c1".to_string()));
}

#[test]
fn test_subscribe_command_unknown_producer() {
    let mut pool = new_pool();
    let resp = process_registration_command("SUBSCRIBE ghost heartbeat", &mut pool);
    match resp {
        Err(TransportError::NotFound(m)) => {
            assert_eq!(m, "Producer not found: ghost");
        }
        _ => panic!("expected a not-found error"),
    }
}

#[test]
fn test_subscribe_command_arity() {
    let mut pool = new_pool();
    let resp = process_registration_command("SUBSCRIBE onlyid", &mut pool);
    match resp {
        Err(TransportError::InvalidInput(m)) => {
            assert_eq!(m, "Usage: SUBSCRIBE <id> <event_name>");
        }
        _ => panic!("expected an invalid-input error"),
    }
}

#[test]
fn test_unsubscribe_command() {
    let mut pool = new_pool();
    process_registration_command("REGISTER c1 tcp://127.0.0.1:9000 news", &mut pool).unwrap();
    let resp = process_registration_command("UNSUBSCRIBE c1 news", &mut pool);
    assert_eq!(resp.unwrap(), "Producer 'c1' unsubscribed from event 'news'");
    assert_eq!(pool.get_event_subscribers("news").len(), 0);
}

#[test]
fn test_list_command_reports_registry() {
    let mut pool = new_pool();
    process_registration_command("REGISTER c1 tcp://127.0.0.1:9000 news", &mut pool).unwrap();
    let resp = process_registration_command("LIST", &mut pool).unwrap();
    assert!(resp.starts_with("Producers: 1\n"));
    assert!(resp.contains("c1 -> 127.0.0.1:9000"));
    assert!(resp.contains("\"news\""));
}

#[test]
fn test_quit_command() {
    let mut pool = new_pool();
    let resp = process_registration_command("QUIT", &mut pool);
    assert_eq!(resp.unwrap(), "Goodbye");
}

#[test]
fn test_unknown_command() {
    let mut pool = new_pool();
    let resp = process_registration_command("FROB x", &mut pool);
    match resp {
        Err(TransportError::InvalidInput(m)) => {
            assert_eq!(m, "Unknown command: FROB");
        }
        _ => panic!("expected an invalid-input error"),
    }
}

#[test]
fn test_empty_command() {
    let mut pool = new_pool();
    let resp = process_registration_command("   ", &mut pool);
    match resp {
        Err(TransportError::InvalidInput(m)) => {
            assert_eq!(m, "Empty command");
        }
        _ => panic!("expected an invalid-input error"),
    }
}

#[test]
fn test_list_command_exact_response() {
    let mut pool = new_pool();
    process_registration_command("REGISTER c1 tcp://127.0.0.1:9000 news", &mut pool).unwrap();
    let resp = process_registration_command("LIST", &mut pool).unwrap();
    assert_eq!(
        resp,
        "Producers: 1\n  c1 -> 127.0.0.1:9000 (events: [\"news\"])\nEvents: [\"news\"]"
    );
}

#[test]
fn test_format_response_lines() {
    let mut pool = new_pool();
    let ok = process_registration_command("QUIT", &mut pool);
    assert_eq!(event_broker::registration::format_response(&ok), "OK:Goodbye");
    let err = process_registration_command("FROB", &mut pool);
    assert_eq!(
        event_broker::registration::format_response(&err),
        "ERROR:Unknown command: FROB"
    );
    assert!(event_broker::registration::is_quit_command("quit"));
    assert!(!event_broker::registration::is_quit_command("QUITX"));
}
