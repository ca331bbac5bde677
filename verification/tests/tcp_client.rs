use core::time::Duration;
use event_broker::TcpClient;

#[test]
fn test_tcp_client_creation() {
    let client = TcpClient::new("127.0.0.1:9000".to_string());
    assert_eq!(client.protocol_name(), "TCP");
    assert_eq!(client.address(), "127.0.0.1:9000");
}

#[test]
fn test_tcp_client_with_timeout() {
    let client = TcpClient::with_timeout("127.0.0.1:9000".to_string(), Duration::from_secs(10));
    assert_eq!(client.protocol_name(), "TCP");
    assert_eq!(client.address(), "127.0.0.1:9000");
}

#[test]
fn test_tcp_client_factory() {
    let client = event_broker::ClientFactory::create_tcp_client("10.0.0.1:8000".to_string());
    assert_eq!(client.address(), "10.0.0.1:8000");
    let client2 = event_broker::ClientFactory::create_tcp_client_with_timeout(
        "10.0.0.2:8001".to_string(),
        Duration::from_secs(2),
    );
    assert_eq!(client2.address(), "10.0.0.2:8001");
    assert_eq!(client2.timeout(), Duration::from_secs(2));
}

#[test]
fn test_tcp_client_default_timeout() {
    let client = TcpClient::new("127.0.0.1:9000".to_string());
    assert_eq!(client.timeout(), Duration::from_secs(5));
}
