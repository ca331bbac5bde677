use event_broker::{ProtocolFactory, ProtocolType, Server, ServerConfig, TcpTransport, TransportServer};

#[test]
fn test_protocol_type_from_str() {
    assert_eq!(ProtocolType::from_str("TCP"), Some(ProtocolType::Tcp));
    assert_eq!(ProtocolType::from_str("tcp"), Some(ProtocolType::Tcp));
    assert_eq!(ProtocolType::from_str("udp"), None);
    assert_eq!(ProtocolType::Tcp.as_str(), "TCP");
}

#[test]
fn test_server_config_builders() {
    let c = ServerConfig::new();
    assert_eq!(c.protocol, ProtocolType::Tcp);
    assert_eq!(c.address, "0.0.0.0:49152");

    let c = ServerConfig::with_address("127.0.0.1:4000".to_string());
    assert_eq!(c.protocol, ProtocolType::Tcp);
    assert_eq!(c.address, "127.0.0.1:4000");

    let mut c = ServerConfig::with_protocol(ProtocolType::Tcp, "0.0.0.0:5000".to_string());
    c.set_address("0.0.0.0:5001".to_string());
    c.set_protocol(ProtocolType::Tcp);
    assert_eq!(c.address, "0.0.0.0:5001");
}

#[test]
fn test_server_initialization() {
    let mut server = Server::new();
    assert!(!server.is_initialized());
    server.initialize().unwrap();
    assert!(server.is_initialized());
    assert_eq!(server.config().address, "0.0.0.0:49152");

    server.set_config(ServerConfig::with_address("127.0.0.1:6000".to_string()));
    assert!(!server.is_initialized());

    let server2 = Server::with_config(ServerConfig::with_address("127.0.0.1:6001".to_string()));
    assert_eq!(server2.config().address, "127.0.0.1:6001");
}

#[test]
fn test_transport_server_accessors() {
    let transport = ProtocolFactory::create(ProtocolType::Tcp, "0.0.0.0:7000").unwrap();
    let ts = TransportServer::new(transport, "0.0.0.0:7000".to_string());
    assert_eq!(ts.address(), "0.0.0.0:7000");
    assert_eq!(ts.protocol_name(), "TCP");
    assert_eq!(ProtocolFactory::protocol_name(ProtocolType::Tcp), "TCP");
    let t2 = TcpTransport::new("unused".to_string());
    assert_eq!(t2.protocol_name(), "TCP");
}
