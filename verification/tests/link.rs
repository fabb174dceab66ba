//! Links.

use rsticulum::destination::Destination;
use rsticulum::identity::Keys;
use rsticulum::packet::PROOF;
use rsticulum::transport::TransportError;
use rsticulum::transport::link::{Link, LinkConfig, LinkState};
use rsticulum::transport::proofs::generate_proof;

fn make_dest(name: &str) -> Destination {
    let keys = Keys::generate();
    Destination::singleton(keys, name, vec![])
}

#[test]
fn link_new_is_closed() {
    let local = make_dest("alice");
    let remote_dest = make_dest("bob");
    let remote_addr = *remote_dest.hash();
    let link = Link::new(local, remote_addr);
    assert_eq!(link.state(), LinkState::Closed);
    assert!(!link.is_established());
}

#[test]
fn link_establish_handshake_cycle() {
    let local = make_dest("alice");
    let remote_dest = make_dest("bob");
    let remote_addr = *remote_dest.hash();

    let mut link = Link::new(local, remote_addr);

    // Initiate handshake
    let proof_packet = link.establish().expect("establish should succeed");
    assert_eq!(link.state(), LinkState::Handshaking);
    assert_eq!(proof_packet.packet_type, PROOF);

    // Complete handshake
    link.complete_handshake(&proof_packet.data)
        .expect("handshake should complete");
    assert_eq!(link.state(), LinkState::Established);
    assert!(link.is_established());
}

#[test]
fn link_send_recv_data() {
    let local = make_dest("alice");
    let remote_dest = make_dest("bob");
    let remote_addr = *remote_dest.hash();

    let mut link = Link::new(local, remote_addr);
    link.establish().unwrap();
    // Use a separate established link for the actual send/recv test
    let mut link2 = make_established_link();
    let pkt = link2
        .send(b"hello world".to_vec())
        .expect("send should work");
    assert_eq!(&pkt.data, b"hello world");

    // Deliver the same packet to the link to simulate receiving
    link2.deliver(&pkt).expect("deliver should work");
    let msg = link2.recv().expect("should have message");
    assert_eq!(msg, b"hello world");
}

#[test]
fn link_send_when_closed_fails() {
    let local = make_dest("alice");
    let remote = make_dest("bob");
    let mut link = Link::new(local, *remote.hash());
    let err = link.send(b"data".to_vec()).unwrap_err();
    assert!(matches!(err, TransportError::LinkNotEstablished));
}

#[test]
fn link_close_clears_buffers() {
    let mut link = make_established_link();
    let _ = link.send(b"msg".to_vec()).unwrap();
    assert_eq!(link.pending_outbound(), 1);
    link.close().unwrap();
    assert_eq!(link.state(), LinkState::Closed);
    assert_eq!(link.pending_outbound(), 0);
    assert_eq!(link.pending_inbound(), 0);
}

#[test]
fn link_config_builder() {
    let config = LinkConfig::builder()
        .mtu(1024)
        .max_retries(5)
        .handshake_timeout_ms(60_000)
        .build();
    assert_eq!(config.mtu, 1024);
    assert_eq!(config.max_retries, 5);
    assert_eq!(config.handshake_timeout_ms, 60_000);
}

#[test]
fn link_config_defaults() {
    let config = LinkConfig::default();
    assert_eq!(config.mtu, 500);
    assert_eq!(config.max_retries, 3);
    assert_eq!(config.handshake_timeout_ms, 30_000);
}

#[test]
fn link_with_config() {
    let local = make_dest("alice");
    let remote = make_dest("bob");
    let config = LinkConfig {
        mtu: 800,
        ..Default::default()
    };
    let link = Link::with_config(local, *remote.hash(), config);
    assert_eq!(link.config().mtu, 800);
}

#[test]
fn transport_id_is_deterministic() {
    let local = make_dest("alice");
    let remote = make_dest("bob");
    let a1 = *local.hash();
    let a2 = *remote.hash();
    let id1 = Link::derive_transport_id(&a1, &a2);
    let id2 = Link::derive_transport_id(&a1, &a2);
    assert_eq!(id1, id2);
}

#[test]
fn link_cannot_establish_twice() {
    let mut link = make_established_link();
    let err = link.establish().unwrap_err();
    assert!(matches!(err, TransportError::LinkAlreadyEstablished));
}

#[test]
fn link_send_exceeds_mtu_fails() {
    let mut link = make_established_link();
    let big_data = vec![0u8; 600]; // MTU default is 500
    let err = link.send(big_data).unwrap_err();
    assert!(matches!(err, TransportError::InvalidChunkSize(600)));
}

fn make_established_link() -> Link {
    let local = make_dest("alice");
    let remote_dest = make_dest("bob");
    let remote_addr = *remote_dest.hash();
    let mut link = Link::new(local, remote_addr);
    let pkt = link.establish().unwrap();
    // Self-test: no remote signing key set, falls back to local verification
    link.complete_handshake(&pkt.data).unwrap();
    link
}

#[test]
fn link_cross_key_handshake() {
    // Alice initiates, Bob responds, Alice verifies with Bob's key
    let alice_keys = Keys::generate();
    let bob_keys = Keys::generate();
    let alice_dest = Destination::singleton(alice_keys.clone(), "alice", vec![]);
    let bob_dest = Destination::singleton(bob_keys.clone(), "bob", vec![]);
    let alice_addr = *alice_dest.hash();
    let bob_addr = *bob_dest.hash();

    // Alice → creates link to Bob, establishes (generates proof signed by alice)
    let mut alice_link = Link::new(alice_dest, bob_addr);
    let alice_proof_packet = alice_link.establish().unwrap();

    // Bob → receives alice's proof, verifies with alice's public key
    // handle_incoming_proof: remote_keys = the peer who sent the proof (alice)
    let mut bob_link = Link::new(bob_dest, alice_addr);
    let bob_response = bob_link
        .handle_incoming_proof(&alice_keys, &alice_proof_packet.data)
        .unwrap();

    // Alice → completes handshake with Bob's response, using Bob's public key
    alice_link.set_remote_signing_key(bob_keys.identity_key_bytes());
    alice_link
        .complete_handshake(&bob_response.data)
        .unwrap();

    assert!(alice_link.is_established());
    assert!(bob_link.is_established());
}

#[test]
fn link_cross_key_wrong_signing_key_fails() {
    let alice_keys = Keys::generate();
    let bob_keys = Keys::generate();
    let eve_keys = Keys::generate();
    let alice_dest = Destination::singleton(alice_keys.clone(), "alice", vec![]);
    let bob_addr = *Destination::singleton(bob_keys.clone(), "bob", vec![]).hash();

    let mut alice_link = Link::new(alice_dest, bob_addr);
    alice_link.establish().unwrap();

    // Set Eve's key instead of Bob's — should fail
    alice_link.set_remote_signing_key(eve_keys.identity_key_bytes());

    let proof_bytes = generate_proof(&bob_keys, alice_link.transport_id.as_slice());
    let err = alice_link
        .complete_handshake(&proof_bytes.to_bytes())
        .unwrap_err();
    assert!(matches!(err, TransportError::SignatureVerification));
}
