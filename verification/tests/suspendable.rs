//! Suspendable links.

use rsticulum::destination::Destination;
use rsticulum::identity::Keys;
use rsticulum::packet::DATA;
use rsticulum::transport::link::LinkConfig;
use rsticulum::transport::proofs::generate_proof;
use rsticulum::transport::suspendable::{
    Storage, SuspendableLink, SuspendableState, SuspendedSession,
};

fn make_dest(name: &str) -> Destination {
    let keys = Keys::generate();
    Destination::singleton(keys, name, vec![])
}

#[test]
fn suspendable_link_new_is_closed() {
    let local = make_dest("alice");
    let bob = make_dest("bob");
    let remote_addr = *bob.hash();
    let bob_id_key = bob.keys().identity_key_bytes();
    let bob_enc_key = bob.keys().encryption_key();

    let link = SuspendableLink::new(local, remote_addr, bob_id_key, bob_enc_key);
    assert_eq!(link.state(), SuspendableState::Closed);
    assert!(!link.is_active());
    assert!(!link.is_suspended());
}

#[test]
fn suspendable_link_establish_complete_and_send() {
    let local = make_dest("alice");
    let bob = make_dest("bob");
    let remote_addr = *bob.hash();
    let bob_id_key = bob.keys().identity_key_bytes();
    let bob_enc_key = bob.keys().encryption_key();

    let mut link = SuspendableLink::new(local, remote_addr, bob_id_key, bob_enc_key);

    // Initial handshake
    let proof_pkt = link.establish().unwrap();
    assert_eq!(link.state(), SuspendableState::Handshaking);

    // Complete handshake (simulate remote proof)
    // In real usage, the remote's proof would come from the remote peer.
    // For testing, we generate a proof with bob's keys to simulate this.
    let bob_keys = bob.keys();
    let bob_proof = generate_proof(bob_keys, link.transport_id().as_slice());
    let bob_proof_bytes = bob_proof.to_bytes();

    link.complete_handshake(&bob_proof_bytes).unwrap();
    assert_eq!(link.state(), SuspendableState::Active);

    // Send data
    let pkt = link.send(b"hello bob".to_vec()).unwrap().unwrap();
    assert_eq!(pkt.packet_type, DATA);
    // Data should be encrypted (not plain "hello bob")
    assert_ne!(&pkt.data, b"hello bob");
}

#[test]
fn suspendable_link_suspend_and_resume_preserves_keys() {
    let local = make_dest("alice");
    let bob = make_dest("bob");
    let remote_addr = *bob.hash();
    let bob_id_key = bob.keys().identity_key_bytes();
    let bob_enc_key = bob.keys().encryption_key();

    let mut link = SuspendableLink::new(local, remote_addr, bob_id_key, bob_enc_key);

    // Establish
    link.establish().unwrap();
    let bob_keys = bob.keys();
    let bob_proof = generate_proof(bob_keys, link.transport_id().as_slice());
    let bob_proof_bytes = bob_proof.to_bytes();
    link.complete_handshake(&bob_proof_bytes).unwrap();
    assert!(link.is_active());
    assert!(link.derived_key.is_some());

    // Suspend
    link.suspend().unwrap();
    assert!(link.is_suspended());
    // derived_key preserved
    assert!(link.derived_key.is_some());

    // Resume
    link.resume().unwrap();
    assert_eq!(link.state(), SuspendableState::Handshaking);
    // derived_key still preserved after resume
    assert!(link.derived_key.is_some());

    // Re-establish (re-verify peer)
    link.establish().unwrap();
    let bob_proof2 = generate_proof(bob_keys, link.transport_id().as_slice());
    let bob_proof_bytes2 = bob_proof2.to_bytes();
    link.complete_handshake(&bob_proof_bytes2).unwrap();
    assert!(link.is_active());
}

#[test]
fn suspendable_link_holds_messages_during_suspension() {
    let local = make_dest("alice");
    let bob = make_dest("bob");
    let remote_addr = *bob.hash();
    let bob_id_key = bob.keys().identity_key_bytes();
    let bob_enc_key = bob.keys().encryption_key();

    let mut link = SuspendableLink::new(local, remote_addr, bob_id_key, bob_enc_key);

    // Establish
    link.establish().unwrap();
    let bob_keys = bob.keys();
    let bob_proof = generate_proof(bob_keys, link.transport_id().as_slice());
    let bob_proof_bytes = bob_proof.to_bytes();
    link.complete_handshake(&bob_proof_bytes).unwrap();

    // Send a message while active
    let pkt = link.send(b"msg1".to_vec()).unwrap();
    assert!(pkt.is_some());
    assert_eq!(link.held_count(), 0);

    // Suspend
    link.suspend().unwrap();

    // Try to send while suspended — should be held
    let result = link.send(b"msg2".to_vec()).unwrap();
    assert!(result.is_none(), "message should be held, not sent");
    assert_eq!(link.held_count(), 1);

    let result = link.send(b"msg3".to_vec()).unwrap();
    assert!(result.is_none());
    assert_eq!(link.held_count(), 2);

    // Resume and re-establish
    link.resume().unwrap();
    link.establish().unwrap();
    let bob_proof2 = generate_proof(bob_keys, link.transport_id().as_slice());
    let bob_proof_bytes2 = bob_proof2.to_bytes();
    link.complete_handshake(&bob_proof_bytes2).unwrap();

    // Replay held messages
    let replayed = link.replay_held().unwrap();
    assert_eq!(replayed.len(), 2);
    assert_eq!(link.held_count(), 0);
}

#[test]
fn suspendable_link_full_roundtrip_with_data() {
    // Generate independent keypairs
    let alice_keys = Keys::generate();
    let bob_keys = Keys::generate();

    // Extract public key info before moving keys into destinations
    let alice_id_key = alice_keys.identity_key_bytes();
    let alice_enc_key = alice_keys.encryption_key();
    let bob_id_key = bob_keys.identity_key_bytes();
    let bob_enc_key = bob_keys.encryption_key();

    // Move alice_keys into destination, keep bob_keys for proof gen
    let alice_dest = Destination::singleton(alice_keys, "alice", vec![]);
    let bob_addr = bob_keys.rns_address();

    let mut alice_link = SuspendableLink::new(alice_dest, bob_addr, bob_id_key, bob_enc_key);

    // Begin handshake
    alice_link.establish().unwrap();

    // Generate Bob's proof (bob_keys still available)
    let bob_proof = generate_proof(&bob_keys, alice_link.transport_id().as_slice());
    let bob_proof_bytes = bob_proof.to_bytes();
    alice_link.complete_handshake(&bob_proof_bytes).unwrap();
    let alice_pkt = alice_link
        .send(b"hello from alice".to_vec())
        .unwrap()
        .unwrap();

    // Move bob_keys into destination now
    let bob_dest = Destination::singleton(bob_keys, "bob", vec![]);
    // Use Alice's key-based RNS address (not destination hash) for transport ID match
    let alice_rns_addr = alice_link.local().keys().rns_address();
    let bob_link_alice_id = alice_link.local().keys().identity_key_bytes();
    let bob_link_alice_enc = alice_link.local().keys().encryption_key();

    let mut bob_link = SuspendableLink::new(
        bob_dest,
        alice_rns_addr,
        bob_link_alice_id,
        bob_link_alice_enc,
    );

    // Bob begins handshake
    bob_link.establish().unwrap();

    // Alice generates proof for Bob's link
    let alice_proof = generate_proof(
        alice_link.local().keys(),
        bob_link.transport_id().as_slice(),
    );
    bob_link
        .complete_handshake(&alice_proof.to_bytes())
        .unwrap();

    // Bob receives Alice's message
    bob_link.deliver(&alice_pkt).unwrap();
    let msg = bob_link.recv().unwrap();
    assert_eq!(msg, b"hello from alice");

    // Bob replies
    let bob_pkt = bob_link.send(b"hello from bob".to_vec()).unwrap().unwrap();
    alice_link.deliver(&bob_pkt).unwrap();
    let reply = alice_link.recv().unwrap();
    assert_eq!(reply, b"hello from bob");
}

#[test]
fn suspendable_link_session_persistence_to_disk() {
    let local = make_dest("alice");
    let bob = make_dest("bob");
    let remote_addr = *bob.hash();
    let bob_id_key = bob.keys().identity_key_bytes();
    let bob_enc_key = bob.keys().encryption_key();

    let mut link = SuspendableLink::with_config_and_storage(
        local,
        remote_addr,
        bob_id_key,
        bob_enc_key,
        LinkConfig::default(),
        Storage::Present(None),
    );

    // Establish
    link.establish().unwrap();
    let bob_keys = bob.keys();
    let bob_proof = generate_proof(bob_keys, link.transport_id().as_slice());
    let bob_proof_bytes = bob_proof.to_bytes();
    link.complete_handshake(&bob_proof_bytes).unwrap();

    // Send a message, then suspend
    link.send(b"pre-suspend".to_vec()).unwrap();
    link.suspend().unwrap();

    // Verify that there is a record
    assert!(link.stored.is_some());

    // Read back and verify
    let data = link.stored.clone().unwrap();
    let session = SuspendedSession::from_bytes(&data).unwrap();
    assert_eq!(session.remote_rns, remote_addr.as_bytes().to_vec());
    assert_eq!(session.resume_count, 1);

    // Resume
    link.resume().unwrap();
    assert_eq!(link.state(), SuspendableState::Handshaking);
}

#[test]
fn suspendable_link_close_destroys_session() {
    let local = make_dest("alice");
    let bob = make_dest("bob");
    let remote_addr = *bob.hash();

    let mut link = SuspendableLink::with_config_and_storage(
        local,
        remote_addr,
        bob.keys().identity_key_bytes(),
        bob.keys().encryption_key(),
        LinkConfig::default(),
        Storage::Present(None),
    );

    link.establish().unwrap();
    let bob_keys = bob.keys();
    let bob_proof = generate_proof(bob_keys, link.transport_id().as_slice());
    let bob_proof_bytes = bob_proof.to_bytes();
    link.complete_handshake(&bob_proof_bytes).unwrap();
    link.suspend().unwrap();
    assert!(link.stored.is_some());

    // Close should destroy the session
    link.resume().unwrap();
    link.establish().unwrap();
    let bob_proof2 = generate_proof(bob_keys, link.transport_id().as_slice());
    link.complete_handshake(&bob_proof2.to_bytes())
        .unwrap();
    link.close().unwrap();

    assert_eq!(link.state(), SuspendableState::Closed);
    assert!(link.derived_key.is_none());
    assert!(link.stored.is_none(), "the record should be deleted on close");
}

#[test]
fn suspendable_link_derived_key_survives_suspend() {
    let local = make_dest("alice");
    let bob = make_dest("bob");

    let mut link = SuspendableLink::new(
        local,
        *bob.hash(),
        bob.keys().identity_key_bytes(),
        bob.keys().encryption_key(),
    );

    link.establish().unwrap();
    let bob_keys = bob.keys();
    let bob_proof = generate_proof(bob_keys, link.transport_id().as_slice());
    let bob_proof_bytes = bob_proof.to_bytes();
    link.complete_handshake(&bob_proof_bytes).unwrap();

    // Capture the derived key
    let dk_before = link.derived_key.as_ref().unwrap().as_bytes().to_vec();

    // Suspend and resume
    link.suspend().unwrap();
    link.resume().unwrap();

    // Derived key should be the same
    let dk_after = link.derived_key.as_ref().unwrap().as_bytes().to_vec();
    assert_eq!(dk_before, dk_after);
}

#[test]
fn without_storage_no_record_is_kept() {
    let bob = make_dest("bob");
    let mut link = SuspendableLink::with_config_and_storage(
        make_dest("alice"),
        *bob.hash(),
        bob.keys().identity_key_bytes(),
        bob.keys().encryption_key(),
        LinkConfig::default(),
        Storage::Absent,
    );
    link.establish().unwrap();
    let proof = generate_proof(bob.keys(), link.transport_id().as_slice());
    link.complete_handshake(&proof.to_bytes()).unwrap();
    link.suspend().unwrap();
    assert!(link.stored.is_none());
    link.resume().unwrap();
    assert_eq!(link.state(), SuspendableState::Handshaking);
}
