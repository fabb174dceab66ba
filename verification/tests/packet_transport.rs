//! Packet transport.

use rsticulum::identity::RnsAddress;
use rsticulum::packet::{DATA, RESOURCE};
use rsticulum::transport::packet_transport::{PacketTransport, max_payload, recv_packet, send_packet};

fn test_addr(b: u8) -> RnsAddress {
    RnsAddress::from_identity_key(&[b; 32])
}

#[test]
fn send_single_packet_within_mtu() {
    let mut transport = PacketTransport::new();
    let dest = test_addr(1);
    let data = b"hello world".to_vec();

    let packets = transport.send_packet(dest, data.clone()).unwrap();
    assert_eq!(packets.len(), 1);
    assert_eq!(packets[0].data, data);
}

#[test]
fn send_fragments_large_message() {
    let mut transport = PacketTransport::with_mtu(100);
    let dest = test_addr(2);
    let data = vec![0xAA; 300]; // Should need ~4 packets with MTU 100

    let packets = transport.send_packet(dest, data.clone()).unwrap();
    assert!(packets.len() > 1, "Should fragment into multiple packets");

    // Each fragment should have context == RESOURCE
    for pkt in &packets {
        assert_eq!(pkt.context, RESOURCE);
    }
}

#[test]
fn recv_and_reassemble_fragments() {
    let mut transport = PacketTransport::with_mtu(100);
    let dest = test_addr(3);
    let data = vec![0xBB; 250];

    let packets = transport.send_packet(dest, data.clone()).unwrap();
    assert!(packets.len() > 1);

    // Simulate receiving all fragments
    let mut result = None;
    for pkt in packets {
        let msg = transport.recv_packet(pkt).unwrap();
        if msg.is_some() {
            result = msg;
        }
    }

    assert!(result.is_some(), "Reassembly should complete");
    assert_eq!(result.unwrap(), data);
}

#[test]
fn recv_single_non_fragmented_packet() {
    let mut transport = PacketTransport::new();
    let dest = test_addr(4);
    let data = b"simple message".to_vec();

    let packets = transport.send_packet(dest, data.clone()).unwrap();
    let msg = transport.recv_packet(packets[0].clone()).unwrap();
    assert_eq!(msg, Some(data));
}

#[test]
fn free_function_send_packet() {
    let dest = test_addr(5);
    let data = b"free function test".to_vec();
    let pkt = send_packet(dest, data.clone());
    assert_eq!(pkt.data, data);
    assert_eq!(pkt.packet_type, DATA);
}

#[test]
fn free_function_recv_packet() {
    let dest = test_addr(6);
    let data = b"recv test".to_vec();
    let pkt = send_packet(dest, data.clone());
    let received = recv_packet(&pkt);
    assert_eq!(received, data);
}

#[test]
fn max_payload_calculation() {
    assert_eq!(max_payload(500), 465);
    assert_eq!(max_payload(100), 65);
    // MTU smaller than header should saturate to 0
    assert_eq!(max_payload(30), 0);
}

#[test]
fn drain_clears_inbound() {
    let mut transport = PacketTransport::new();
    let dest = test_addr(7);
    transport.send_packet(dest, b"msg1".to_vec()).unwrap();
    transport.send_packet(dest, b"msg2".to_vec()).unwrap();

    // Feed packets back as received
    let out: Vec<_> = transport.outbound.clone();
    for pkt in &out {
        transport.recv_packet(pkt.clone()).unwrap();
    }

    let drained = transport.drain();
    assert_eq!(drained.len(), 2);
    assert_eq!(transport.pending_inbound(), 0);
}

#[test]
fn clear_resets_all_state() {
    let mut transport = PacketTransport::new();
    let dest = test_addr(8);
    transport.send_packet(dest, b"test".to_vec()).unwrap();
    transport.clear();
    assert_eq!(transport.pending_inbound(), 0);
    assert_eq!(transport.pending_outbound(), 0);
}

#[test]
fn fragments_in_any_order_make_the_message() {
    let data: Vec<u8> = (0..200u8).collect();
    let packets = PacketTransport::with_mtu(45).send_packet(test_addr(1), data.clone()).unwrap();
    assert_eq!(packets.len(), 20);
    let mut receiver = PacketTransport::new();
    for k in 0..20 {
        let got = receiver.recv_packet(packets[(k * 13 + 4) % 20].clone()).unwrap();
        assert_eq!(got, if k == 19 { Some(data.clone()) } else { None });
    }
}
