//! Keys, addresses, announcements, encryption and ratchets.

use ed25519_dalek::SigningKey;
use rand::rngs::OsRng;
use rsticulum::identity::crypto::{
    ecdh, ed25519_pub_to_x25519, ed25519_secret_to_x25519, generate_ephemeral_x25519,
};
use rsticulum::identity::ratchet_store::{RatchetStore, RatchetStoreError};
use rsticulum::identity::{
    decrypt_packet, encrypt_packet, Address, DerivedKey, Fernet, IdentityAnnounce, IdentityError,
    Keys, RnsAddress, IDENTITY_KEY_LEN,
};
use sha2::{Digest, Sha256};
use x25519_dalek::{PublicKey, StaticSecret};

#[test]
fn address_deterministic() {
    let key = [0xAB; IDENTITY_KEY_LEN];
    assert_eq!(Address::from_identity_key(&key), Address::from_identity_key(&key));
}

#[test]
fn address_hex_roundtrip() {
    let key = [0x42; IDENTITY_KEY_LEN];
    let a = Address::from_identity_key(&key);
    let a2: Address = Address::try_from(a.to_string().as_str()).unwrap();
    assert_eq!(a, a2);
}

#[test]
fn matches_rns_derivation() {
    let mut csprng = OsRng;
    let signing = SigningKey::generate(&mut csprng);
    let pk = signing.verifying_key().to_bytes();

    let ours = RnsAddress::from_identity_key(&pk);

    let mut hasher = Sha256::new();
    hasher.update(pk);
    let expected = &hasher.finalize()[..16];

    assert_eq!(ours.as_bytes(), expected);
    assert_eq!(ours.as_bytes().len(), 16);
}

#[test]
fn rns_address_deterministic() {
    let key = [0xAB; IDENTITY_KEY_LEN];
    assert_eq!(RnsAddress::from_identity_key(&key), RnsAddress::from_identity_key(&key));
}

#[test]
fn rns_address_hex_roundtrip() {
    let key = [0x42; IDENTITY_KEY_LEN];
    let a = RnsAddress::from_identity_key(&key);
    let s = a.to_string();
    assert_eq!(s.len(), 32);
    let a2: RnsAddress = RnsAddress::try_from(s.as_str()).unwrap();
    assert_eq!(a, a2);
}

#[test]
fn an_address_is_a_blake3_hash() {
    let key = [7u8; 32];
    assert_eq!(Address::from_identity_key(&key).as_bytes(), blake3::hash(&key).as_bytes());
}

#[test]
fn addresses_of_the_wrong_length_are_refused() {
    assert!(RnsAddress::from_bytes(&[0; 15]).is_err());
    assert!(RnsAddress::from_bytes(&[0; 17]).is_err());
    assert_eq!(RnsAddress::from_bytes(&[9; 16]), Ok(RnsAddress([9; 16])));
    assert!(Address::from_bytes(&[0; 31]).is_err());
    assert!(RnsAddress::try_from("zz").is_err());
}

#[test]
fn sign_verify_roundtrip() {
    let k = Keys::generate();
    let ann = IdentityAnnounce::sign(&k);
    assert!(ann.verify().is_ok());
}

#[test]
fn tampered_fails() {
    let k = Keys::generate();
    let mut ann = IdentityAnnounce::sign(&k);
    ann.encryption_key[0] ^= 1;
    assert!(ann.verify().is_err());
}

#[test]
fn an_announcement_is_read_back() {
    let k = Keys::generate();
    let ann = IdentityAnnounce::sign_at(&k, 1_700_000_000);
    let back = IdentityAnnounce::from_bytes(&ann.to_bytes()).unwrap();
    assert_eq!(back.created_at(), 1_700_000_000);
    assert_eq!(back.identity_key(), &k.identity_key_bytes());
    assert_eq!(back.encryption_key(), &k.encryption_key());
    assert!(back.verify_at(1_700_000_300).is_ok());
    assert!(back.verify_at(1_700_000_301).is_err());
    assert!(back.verify_at(1_699_999_699).is_err());
}

#[test]
fn derived_key_is_32_bytes() {
    let keys = Keys::generate();
    let their_keys = Keys::generate();
    let dk = DerivedKey::from_static(keys.encryption_secret(), &their_keys.encryption_key());
    assert_eq!(dk.as_bytes().len(), 32);
}

fn shared_secret() -> [u8; 32] {
    let (ours, _) = generate_ephemeral_x25519();
    let (_, theirs) = generate_ephemeral_x25519();
    ecdh(ours, &theirs)
}

#[test]
fn fernet_roundtrip() {
    let dk = DerivedKey::new(&shared_secret(), None);
    let fernet = Fernet::from_derived_key(&dk);

    let msg = b"hello world test message";
    let token = fernet.encrypt(msg).expect("encrypt");
    assert_eq!(token.len(), 16 + 32 + 32);

    let decrypted = fernet.decrypt(&token).expect("decrypt");
    assert_eq!(decrypted, msg);
}

#[test]
fn fernet_hmac_tamper_detected() {
    let dk = DerivedKey::new(&shared_secret(), None);
    let fernet = Fernet::from_derived_key(&dk);

    let msg = b"tamper test";
    let mut token = fernet.encrypt(msg).expect("encrypt");

    token[20] ^= 0x01;

    assert!(fernet.decrypt(&token).is_err());
}

#[test]
fn encrypt_for_decrypt_from_roundtrip() {
    let alice = Keys::generate();
    let bob = Keys::generate();

    let msg = b"private message from alice to bob";
    let rns_addr = bob.rns_address();

    let ciphertext = alice
        .encrypt_for(&bob.encryption_key(), rns_addr.as_bytes(), msg)
        .expect("encrypt");
    assert_eq!(ciphertext.len(), 128);

    let decrypted = bob.decrypt_from(&ciphertext).expect("decrypt");
    assert_eq!(decrypted, msg);
}

#[test]
fn encrypt_for_wrong_recipient_fails() {
    let alice = Keys::generate();
    let bob = Keys::generate();
    let eve = Keys::generate();

    let msg = b"secret for bob only";
    let ciphertext = alice
        .encrypt_for(&bob.encryption_key(), bob.rns_address().as_bytes(), msg)
        .expect("encrypt");

    assert!(eve.decrypt_from(&ciphertext).is_err());
}

#[test]
fn derived_key_different_per_salt() {
    let k1 = Keys::generate();
    let k2 = Keys::generate();

    let dk_a = DerivedKey::from_static(k1.encryption_secret(), &k2.encryption_key());
    let dk_b = DerivedKey::new(
        &ecdh(*k1.encryption_secret(), &k2.encryption_key()),
        Some(b"different salt"),
    );

    assert_ne!(dk_a.as_bytes(), dk_b.as_bytes());
}

#[test]
fn empty_message_roundtrip() {
    let alice = Keys::generate();
    let bob = Keys::generate();

    let ciphertext = alice
        .encrypt_for(&bob.encryption_key(), bob.rns_address().as_bytes(), b"")
        .expect("encrypt empty");

    let decrypted = bob.decrypt_from(&ciphertext).expect("decrypt empty");
    assert!(decrypted.is_empty());
}

#[test]
fn large_message_roundtrip() {
    let alice = Keys::generate();
    let bob = Keys::generate();
    let msg = vec![0xAB; 1024];

    let ciphertext = alice
        .encrypt_for(&bob.encryption_key(), bob.rns_address().as_bytes(), &msg)
        .expect("encrypt large");

    let decrypted = bob.decrypt_from(&ciphertext).expect("decrypt large");
    assert_eq!(decrypted, msg);
}

#[test]
fn ed25519_pub_to_x25519_conversion() {
    let keys = Keys::generate();
    let ed_pub = keys.identity_key_bytes();
    let x25519_pub = ed25519_pub_to_x25519(&ed_pub).expect("conversion");
    assert_eq!(x25519_pub.len(), 32);
}

#[test]
fn ed25519_pub_to_x25519_is_deterministic() {
    let keys = Keys::generate();
    let ed_pub = keys.identity_key_bytes();
    let x1 = ed25519_pub_to_x25519(&ed_pub).expect("first");
    let x2 = ed25519_pub_to_x25519(&ed_pub).expect("second");
    assert_eq!(x1, x2);
}

#[test]
fn ed25519_secret_to_x25519_is_clamped() {
    let keys = Keys::generate();
    let seed = keys.signing_secret_bytes();
    let x25519_priv = ed25519_secret_to_x25519(&seed);

    assert_eq!(x25519_priv[0] & 0b111, 0);
    assert_eq!(x25519_priv[31] & 0x80, 0);
    assert_eq!(x25519_priv[31] & 0x40, 0x40);
}

#[test]
fn ecdh_both_sides_compute_same_secret() {
    let (alice_eph_secret, alice_eph_pub) = generate_ephemeral_x25519();
    let bob_static = StaticSecret::random_from_rng(OsRng);
    let bob_pub = PublicKey::from(&bob_static);

    let shared_alice = ecdh(alice_eph_secret, bob_pub.as_bytes());
    let shared_bob_bytes = bob_static.diffie_hellman(&PublicKey::from(alice_eph_pub));
    let mut shared_bob = [0u8; 32];
    shared_bob.copy_from_slice(shared_bob_bytes.as_bytes());

    assert_eq!(shared_alice, shared_bob);
}

#[test]
fn encrypt_decrypt_packet_roundtrip() {
    let sender = Keys::generate();
    let recipient = Keys::generate();
    let hash = *recipient.rns_address().as_bytes();

    let msg = b"secret packet payload for delivery";
    let encrypted = encrypt_packet(msg, &sender, &recipient.identity_key_bytes(), &hash)
        .expect("encrypt_packet");
    assert!(encrypted.len() > 32);

    let decrypted = decrypt_packet(&encrypted, &recipient, &hash).expect("decrypt_packet");
    assert_eq!(decrypted, msg);
}

#[test]
fn decrypt_packet_wrong_recipient_fails() {
    let sender = Keys::generate();
    let alice = Keys::generate();
    let eve = Keys::generate();
    let hash = *alice.rns_address().as_bytes();

    let msg = b"secret for alice only";
    let encrypted = encrypt_packet(msg, &sender, &alice.identity_key_bytes(), &hash)
        .expect("encrypt_packet");

    let eve_hash = *eve.rns_address().as_bytes();
    assert!(decrypt_packet(&encrypted, &eve, &eve_hash).is_err());
}

#[test]
fn encrypt_decrypt_packet_empty_payload() {
    let sender = Keys::generate();
    let recipient = Keys::generate();
    let hash = *recipient.rns_address().as_bytes();

    let encrypted = encrypt_packet(b"", &sender, &recipient.identity_key_bytes(), &hash)
        .expect("encrypt empty");
    let decrypted = decrypt_packet(&encrypted, &recipient, &hash).expect("decrypt empty");
    assert!(decrypted.is_empty());
}

#[test]
fn encrypt_decrypt_packet_large_payload() {
    let sender = Keys::generate();
    let recipient = Keys::generate();
    let hash = *recipient.rns_address().as_bytes();
    let msg = vec![0xCD; 4096];

    let encrypted = encrypt_packet(&msg, &sender, &recipient.identity_key_bytes(), &hash)
        .expect("encrypt large");
    let decrypted = decrypt_packet(&encrypted, &recipient, &hash).expect("decrypt large");
    assert_eq!(decrypted, msg);
}

#[test]
fn encrypt_packet_multiplicity_each_unique() {
    let sender = Keys::generate();
    let recipient = Keys::generate();
    let hash = *recipient.rns_address().as_bytes();

    let enc1 = encrypt_packet(b"msg1", &sender, &recipient.identity_key_bytes(), &hash)
        .expect("enc1");
    let enc2 = encrypt_packet(b"msg1", &sender, &recipient.identity_key_bytes(), &hash)
        .expect("enc2");
    assert_ne!(enc1, enc2);
}

#[test]
fn decrypt_packet_tampered_fails() {
    let sender = Keys::generate();
    let recipient = Keys::generate();
    let hash = *recipient.rns_address().as_bytes();

    let msg = b"tamper me";
    let mut encrypted = encrypt_packet(msg, &sender, &recipient.identity_key_bytes(), &hash)
        .expect("encrypt");

    encrypted[40] ^= 0x01;

    assert!(decrypt_packet(&encrypted, &recipient, &hash).is_err());
}

#[test]
fn signatures_are_those_of_ed25519() {
    let keys = Keys::from_secrets([3; 32], [4; 32]);
    let reference = SigningKey::from_bytes(&[3; 32]);
    assert_eq!(keys.identity_key(), reference.verifying_key().to_bytes());
    let signature = keys.sign(b"message");
    assert!(keys.verify(b"message", &signature).is_ok());
    assert!(keys.verify(b"massage", &signature).is_err());
}

#[test]
fn test_store_roundtrip() {
    let mut store = RatchetStore::open("");

    let hash = [0xABu8; 16];
    let key = [0x42u8; 32];

    store.store(hash, key);
    assert_eq!(store.lookup(&hash), Some(key));
    assert_eq!(store.len(), 1);
}

#[test]
fn test_remove() {
    let mut store = RatchetStore::open("");

    let hash = [0xABu8; 16];
    store.store(hash, [0x42u8; 32]);
    assert_eq!(store.len(), 1);
    store.remove(&hash);
    assert_eq!(store.lookup(&hash), None);
    assert_eq!(store.len(), 0);
}

#[test]
fn test_persistence_across_reopen() {
    let content = {
        let mut store = RatchetStore::open("");
        store.store([0xABu8; 16], [0x42u8; 32]);
        store.render()
    };

    {
        let store = RatchetStore::open(&content);
        assert_eq!(store.lookup(&[0xABu8; 16]), Some([0x42u8; 32]));
    }
}

#[test]
fn test_identities_list() {
    let mut store = RatchetStore::open("");

    let h1 = [0x01u8; 16];
    let h2 = [0x02u8; 16];
    store.store(h1, [0xAAu8; 32]);
    store.store(h2, [0xBBu8; 32]);

    let ids = store.identities();
    assert_eq!(ids.len(), 2);
    assert!(ids.contains(&h1));
    assert!(ids.contains(&h2));
}

#[test]
fn test_empty_store() {
    let store = RatchetStore::open("");
    assert_eq!(store.len(), 0);
    assert!(store.identities().is_empty());
}

#[test]
fn errors_of_the_identity_layer() {
    assert!(matches!(IdentityAnnounce::from_bytes(&[0; 10]), Err(IdentityError::Serde(_))));
    let mut short = IdentityAnnounce::sign_at(&Keys::generate(), 50).to_bytes();
    short[0] = 31;
    assert_eq!(
        IdentityAnnounce::from_bytes(&short).unwrap_err().to_string(),
        "serialization: invalid length 31, expected a byte array of length 32"
    );
    assert!(matches!(
        RnsAddress::from_bytes(&[0; 3]),
        Err(IdentityError::InvalidLength { expected: 16, got: 3, .. })
    ));
    let mut ann = IdentityAnnounce::sign_at(&Keys::generate(), 50);
    assert!(matches!(
        ann.verify_at(1000),
        Err(IdentityError::ClockDrift { threshold_secs: 300, .. })
    ));
    ann.created_at = 51;
    assert_eq!(ann.verify_at(51), Err(IdentityError::SignatureMismatch));
}

#[test]
fn identity_errors_are_told() {
    let length = IdentityError::InvalidLength { name: "address", expected: 32, got: 7 };
    assert_eq!(length.to_string(), "invalid length for address: expected 32, got 7");
    let drift = IdentityError::ClockDrift { delta_secs: -301, threshold_secs: 300 };
    assert_eq!(drift.to_string(), "clock drift -301s exceeds 300s");
    let least = IdentityError::ClockDrift { delta_secs: i64::MIN, threshold_secs: 0 };
    assert_eq!(least.to_string(), "clock drift -9223372036854775808s exceeds 0s");
    assert_eq!(IdentityError::SignatureMismatch.to_string(), "signature verification failed");
    assert_eq!(IdentityError::Serde("x".to_string()).to_string(), "serialization: x");
    assert_eq!(RatchetStoreError::Lock.to_string(), "ratchet store lock poisoned");
    assert_eq!(RatchetStoreError::Io("full".to_string()).to_string(), "ratchet store I/O: full");
}

#[test]
fn zeroize_overwrites_the_keys() {
    let mut dk = DerivedKey::new(&shared_secret(), None);
    let mut fernet = Fernet::from_derived_key(&dk);
    assert_ne!(dk.key, [0u8; 32]);
    assert_ne!(fernet.sign_key, [0u8; 16]);
    assert_ne!(fernet.enc_key, [0u8; 16]);
    dk.zeroize();
    assert_eq!(dk.key, [0u8; 32]);
    assert_ne!(fernet.sign_key, [0u8; 16]);
    fernet.zeroize();
    assert_eq!(fernet.sign_key, [0u8; 16]);
    assert_eq!(fernet.enc_key, [0u8; 16]);
}
