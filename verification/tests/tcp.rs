//! The TCP interfaces.

use rsticulum::interface::kiss::{KissDecoder, KissFrame, KissFrameResult};
use rsticulum::interface::serial::Polled;
use rsticulum::interface::tcp::read_chunk;
use rsticulum::interface::{InterfaceError, TcpClientInterface, TcpServerInterface};

#[test]
fn kiss_encode_decode_roundtrip() {
    let data = b"hello, reticulum!".to_vec();
    let encoded = KissFrame::encode(&data);

    let mut decoder = KissDecoder::new();
    let mut results = Vec::new();
    for &b in &encoded {
        if let Some(KissFrameResult { data: decoded, .. }) = decoder.feed(b) {
            results.push(decoded);
        }
    }
    assert_eq!(results.len(), 1);
    assert_eq!(results[0], data);
}

#[test]
fn kiss_empty_payload() {
    let data = vec![];
    let encoded = KissFrame::encode(&data);

    let mut decoder = KissDecoder::new();
    let mut results = Vec::new();
    for &b in &encoded {
        if let Some(KissFrameResult { data: decoded, .. }) = decoder.feed(b) {
            results.push(decoded);
        }
    }
    assert_eq!(results.len(), 1);
    assert_eq!(results[0], data);
}

#[test]
fn tcp_client_not_online_initially() {
    let iface = TcpClientInterface::new("test", "127.0.0.1", 9999);
    assert!(!iface.is_online());
    assert_eq!(iface.name(), "test");
}

#[test]
fn tcp_client_receive_when_not_online() {
    let iface = TcpClientInterface::new("test", "127.0.0.1", 9999);
    let result = iface.receive(Polled::Empty);
    assert!(matches!(result, Err(InterfaceError::NotOnline)));
}

#[test]
fn tcp_client_send_when_not_online() {
    let iface = TcpClientInterface::new("test", "127.0.0.1", 9999);
    let result = iface.send(b"data");
    assert!(matches!(result, Err(InterfaceError::NotOnline)));
}

#[test]
fn tcp_client_shutdown_when_not_online() {
    let mut iface = TcpClientInterface::new("test", "127.0.0.1", 9999);
    let result = iface.shutdown();
    assert!(matches!(result, Err(InterfaceError::NotOnline)));
}

#[test]
fn tcp_server_not_online_initially() {
    let iface = TcpServerInterface::new("test", "127.0.0.1", 0);
    assert!(!iface.is_online());
    assert_eq!(iface.name(), "test");
}

#[test]
fn tcp_server_receive_when_not_online() {
    let iface = TcpServerInterface::new("test", "127.0.0.1", 0);
    let result = iface.receive(Polled::Empty);
    assert!(matches!(result, Err(InterfaceError::NotOnline)));
}

#[test]
fn tcp_server_send_when_not_online() {
    let iface = TcpServerInterface::new("test", "127.0.0.1", 0);
    let result = iface.send(b"data");
    assert!(matches!(result, Err(InterfaceError::NotOnline)));
}

#[test]
fn tcp_server_shutdown_when_not_online() {
    let mut iface = TcpServerInterface::new("test", "127.0.0.1", 0);
    let result = iface.shutdown();
    assert!(matches!(result, Err(InterfaceError::NotOnline)));
}

#[test]
fn tcp_interfaces_start_once() {
    let mut client = TcpClientInterface::new("c", "host", 99);
    assert_eq!(
        client.start(Err("refused".to_string())),
        Err(InterfaceError::Io("connect host:99: refused".to_string()))
    );
    assert_eq!(client.bitrate(), 0);
    assert_eq!(client.start(Ok(())), Ok(()));
    assert_eq!(client.bitrate(), 1_000_000_000);
    assert_eq!(client.start(Ok(())), Err(InterfaceError::AlreadyOnline));
    let mut server = TcpServerInterface::new("s", "host", 7);
    assert_eq!(
        server.start(Err("in use".to_string())),
        Err(InterfaceError::Io("bind host:7: in use".to_string()))
    );
    assert_eq!(server.start(Ok(())), Ok(()));
    assert_eq!(server.send(b"data"), Ok(KissFrame::encode(b"data")));
    assert_eq!(server.receive(Polled::Frame(vec![5])), Ok(Some(vec![5])));
    assert_eq!(server.shutdown(), Ok(()));
}

#[test]
fn tcp_client_server_kiss_roundtrip() {
    let mut client = TcpClientInterface::new("client", "127.0.0.1", 1);
    client.start(Ok(())).unwrap();
    let test_data = b"reticulum test packet".to_vec();
    let written = client.send(&test_data).unwrap();
    let mut decoder = KissDecoder::new();
    let (first, second) = written.split_at(7);
    assert!(read_chunk(&mut decoder, first).is_empty());
    assert_eq!(read_chunk(&mut decoder, second), vec![test_data]);
}
