//! Destinations.

use rsticulum::destination::Destination;
use rsticulum::identity::Keys;
use sha2::{Digest, Sha256};

#[test]
fn destination_hash_is_16_bytes() {
    let keys = Keys::generate();
    let d = Destination::singleton(keys, "test", vec![]);
    assert_eq!(d.hash().as_bytes().len(), 16);
}

#[test]
fn expanded_name_with_aspects() {
    let name = Destination::expand_name("matrix", &["room_42".into(), "user_alice".into()]);
    assert_eq!(name, "matrix.room_42.user_alice");
}

#[test]
fn expanded_name_no_aspects() {
    let name = Destination::expand_name("lxmf", &[]);
    assert_eq!(name, "lxmf");
}

#[test]
fn the_hash_is_made_of_the_name_and_the_identity() {
    let keys = Keys::from_secrets([1; 32], [2; 32]);
    let d = Destination::singleton(keys, "app", vec!["one".to_string()]);
    let name_hash = Sha256::digest(b"app.one");
    let identity_hash = Sha256::digest(d.identity_key_bytes());
    let mut material = name_hash[..10].to_vec();
    material.extend_from_slice(&identity_hash[..16]);
    assert_eq!(d.hash().as_bytes(), &Sha256::digest(&material)[..16]);
    assert_eq!(d.name(), format!("app.one.{}", hex::encode(d.hash().as_bytes())));
    assert_eq!(d.mtu(), 500);
}
