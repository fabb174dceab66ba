//! Proofs.

use rsticulum::identity::Keys;
use rsticulum::transport::proofs::{PROOF_LEN, Proof, ProofError, generate_proof, verify_proof};

#[test]
fn proof_generate_and_verify_roundtrip() {
    let keys = Keys::generate();
    let message = b"test-message-for-proof";

    let proof = generate_proof(&keys, message);
    assert_eq!(proof.to_bytes().len(), PROOF_LEN);

    verify_proof(&keys, message, &proof).expect("proof should verify");
}

#[test]
fn proof_wire_format_roundtrip() {
    let keys = Keys::generate();
    let proof = generate_proof(&keys, b"wire-format-test");
    let bytes = proof.to_bytes();
    assert_eq!(bytes.len(), 96);

    let proof2 = Proof::from_bytes(&bytes).expect("deserialize");
    assert_eq!(proof.packet_hash, proof2.packet_hash);
    assert_eq!(proof.signature, proof2.signature);

    verify_proof(&keys, b"wire-format-test", &proof2).expect("roundtripped proof");
}

#[test]
fn proof_wrong_message_fails() {
    let keys = Keys::generate();
    let proof = generate_proof(&keys, b"correct-message");

    let err = verify_proof(&keys, b"wrong-message", &proof).unwrap_err();
    assert!(matches!(err, ProofError::HashMismatch));
}

#[test]
fn proof_wrong_key_fails() {
    let alice = Keys::generate();
    let bob = Keys::generate();
    let proof = generate_proof(&alice, b"shared-message");

    let err = verify_proof(&bob, b"shared-message", &proof).unwrap_err();
    assert!(matches!(err, ProofError::SignatureMismatch));
}

#[test]
fn proof_tampered_signature_fails() {
    let keys = Keys::generate();
    let mut proof = generate_proof(&keys, b"tamper-me");
    proof.signature[0] ^= 0xFF;

    let err = verify_proof(&keys, b"tamper-me", &proof).unwrap_err();
    assert!(matches!(err, ProofError::SignatureMismatch));
}

#[test]
fn proof_different_messages_produce_different_signatures() {
    let keys = Keys::generate();
    let p1 = generate_proof(&keys, b"msg-001");
    let p2 = generate_proof(&keys, b"msg-002");
    assert_ne!(p1.signature, p2.signature);
    assert_ne!(p1.packet_hash, p2.packet_hash);
}

#[test]
fn proof_from_bytes_wrong_length() {
    assert!(Proof::from_bytes(&[0u8; 95]).is_err());
    assert!(Proof::from_bytes(&[0u8; 97]).is_err());
    assert!(Proof::from_bytes(&[]).is_err());
}
