//! Names, Interests, Data, the content store and the forwarder.

use rsticulum::icn::demo::{first_manifest, hash_verified, serve, signed_content};
use rsticulum::icn::interest::InterestSelector;
use rsticulum::icn::manifest::{is_readable, parse_name_from_display};
use rsticulum::icn::varint::{read_varint, write_varint};
use rsticulum::icn::{
    first_data, ContentStore, Data, EntryKind, FaceCapabilities, Forwarder, Freshness, Interest, LinkFace,
    Manifest, ManifestEntry, ManifestError, Name, NameError, Recipients, Step,
};
use rsticulum::destination::Destination;
use rsticulum::identity::Keys;
use rsticulum::span::TimeSpan;
use rsticulum::transport::{generate_proof, Link, LinkConfig, Proof};

fn make_hash(byte: u8) -> [u8; 32] {
    let mut h = [0u8; 32];
    h[0] = byte;
    h
}

fn make_name(byte: u8) -> Name {
    Name::new(make_hash(byte), &[b"test"])
}

fn make_data(name: Name) -> Data {
    let sig = Proof::from_bytes(&vec![0u8; 96]).unwrap();
    Data::new(name, b"content".to_vec(), sig)
}

fn at(secs: u64) -> TimeSpan {
    TimeSpan::from_secs(secs)
}

// Names

#[test]
fn test_name_round_trip() {
    let name = Name::new(make_hash(0xAA), &[b"app", b"chat"]).with_content_hash(make_hash(0xBB));
    let bytes = name.to_bytes();
    let parsed = Name::from_bytes(&bytes).unwrap();
    assert_eq!(name, parsed);
    assert_eq!(name.to_string(), parsed.to_string());
}

#[test]
fn test_name_no_content_hash() {
    let name = Name::new(make_hash(0x42), &[b"test"]);
    let bytes = name.to_bytes();
    let parsed = Name::from_bytes(&bytes).unwrap();
    assert_eq!(name, parsed);
    assert_eq!(parsed.content_hash(), None);
    assert_eq!(parsed.producer_hash(), make_hash(0x42));
}

#[test]
fn test_starts_with() {
    let prefix = Name::new(make_hash(0x01), &[b"app"]);
    let name = Name::new(make_hash(0x01), &[b"app", b"chat", b"v5"]);
    assert!(name.starts_with(&prefix));
    assert!(prefix.is_prefix_of(&name));
}

#[test]
fn test_starts_with_negative() {
    let a = Name::new(make_hash(0x01), &[b"app"]);
    let b = Name::new(make_hash(0x02), &[b"app"]);
    assert!(!a.starts_with(&b));
    assert!(!b.starts_with(&a));
}

#[test]
fn test_prefix_of_different_depth() {
    let prefix = Name::new(make_hash(0x01), &[b"app"]);
    let name = Name::new(make_hash(0x01), &[b"app"]);
    assert!(name.starts_with(&prefix));
    assert!(prefix.starts_with(&name));
}

#[test]
fn test_display() {
    let name = Name::new(make_hash(0xAA), &[b"app", b"chat"]);
    let s = name.to_string();
    assert!(s.starts_with("/aa000000..00000000/app/chat"));
}

#[test]
fn test_display_with_hash() {
    let name = Name::new(make_hash(0x01), &[b"data"]).with_content_hash(make_hash(0xBB));
    let s = name.to_string();
    assert!(s.contains("?blake3="));
}

#[test]
fn test_empty_bytes_error() {
    assert!(Name::from_bytes(&[]).is_err());
}

#[test]
fn test_truncated_bytes_error() {
    let mut bytes = vec![2, 32];
    bytes.extend_from_slice(&make_hash(0x01));
    bytes.push(5);
    assert!(Name::from_bytes(&bytes).is_err());
}

#[test]
fn a_name_starts_with_its_component_count() {
    let bytes = Name::new([7; 32], &[b"ab"]).to_bytes();
    assert_eq!(bytes[0], 2);
    assert_eq!(bytes[1], 32);
    assert_eq!(&bytes[2..34], &[7; 32]);
    assert_eq!(&bytes[34..], &[2, b'a', b'b']);
}

// Interests and Data

fn test_name() -> Name {
    Name::new(make_hash(0xAA), &[b"test"])
}

#[test]
fn test_interest_round_trip() {
    let interest = Interest::new(test_name())
        .with_lifetime(TimeSpan::from_secs(10))
        .with_can_be_prefix()
        .with_must_be_fresh();

    let bytes = interest.to_bytes();
    let parsed = Interest::from_bytes(&bytes).unwrap();

    assert_eq!(interest.name, parsed.name);
    assert_eq!(interest.nonce, parsed.nonce);
    assert_eq!(interest.lifetime, parsed.lifetime);
    assert_eq!(interest.can_be_prefix, parsed.can_be_prefix);
    assert!(parsed.selector.as_ref().unwrap().must_be_fresh);
}

#[test]
fn test_interest_with_selector() {
    let interest = Interest::new(test_name()).with_selector(InterestSelector {
        min_sequence: Some(5),
        exclude_hashes: vec![make_hash(0x01), make_hash(0x02)],
        must_be_fresh: false,
    });

    let bytes = interest.to_bytes();
    let parsed = Interest::from_bytes(&bytes).unwrap();

    assert_eq!(parsed.selector.as_ref().unwrap().min_sequence, Some(5));
    assert_eq!(parsed.selector.as_ref().unwrap().exclude_hashes.len(), 2);
}

#[test]
fn test_data_round_trip() {
    let content = b"hello icn".to_vec();
    let sig_bytes = vec![0u8; 96];
    let signature = Proof::from_bytes(&sig_bytes).unwrap();
    let data = Data::new(test_name(), content.clone(), signature).with_sequence(42);

    let bytes = data.to_bytes();
    let parsed = Data::from_bytes(&bytes).unwrap();

    assert_eq!(data.name, parsed.name);
    assert_eq!(data.content, parsed.content);
    assert_eq!(parsed.metadata.sequence, Some(42));
    assert_eq!(parsed.metadata.freshness, Freshness::Fresh);
}

#[test]
fn test_data_staleness() {
    let sig_bytes = vec![0u8; 96];
    let signature = Proof::from_bytes(&sig_bytes).unwrap();
    let data = Data::new(test_name(), b"data".to_vec(), signature)
        .with_staleness(TimeSpan::from_secs(3600));

    let bytes = data.to_bytes();
    let parsed = Data::from_bytes(&bytes).unwrap();

    assert!(matches!(
        parsed.metadata.freshness,
        Freshness::Stale { age } if age == TimeSpan::from_secs(3600)
    ));
}

#[test]
fn test_varint_round_trip() {
    for value in [0u64, 1, 127, 128, 255, 256, 16383, 16384, 1_000_000] {
        let mut buf = Vec::new();
        write_varint(&mut buf, value);
        let (parsed, _len) = read_varint(&buf).unwrap();
        assert_eq!(parsed, value, "varint round-trip failed for {value}");
    }
}

#[test]
fn varints_are_little_endian_groups_of_seven_bits() {
    let mut buf = Vec::new();
    write_varint(&mut buf, 300);
    assert_eq!(buf, vec![0xAC, 0x02]);
    assert_eq!(read_varint(&[0x80]), None);
}

#[test]
fn test_interest_buffer_too_short() {
    assert!(Interest::from_bytes(&[]).is_err());
    assert!(Interest::from_bytes(&[0x01]).is_err());
}

#[test]
fn test_data_buffer_too_short() {
    assert!(Data::from_bytes(&[]).is_err());
    assert!(Data::from_bytes(&[0x01]).is_err());
}

// Content store

#[test]
fn test_insert_and_get() {
    let mut cs = ContentStore::new(10);
    let name = Name::new(make_hash(0x01), &[b"test"]);
    cs.insert(name.clone(), make_data(name.clone()));
    assert!(cs.get(&name).is_some());
    assert_eq!(cs.len(), 1);
}

#[test]
fn test_get_miss() {
    let mut cs = ContentStore::new(10);
    let name = Name::new(make_hash(0x01), &[b"test"]);
    assert!(cs.get(&name).is_none());
    assert_eq!(cs.misses(), 1);
}

#[test]
fn test_contains() {
    let mut cs = ContentStore::new(10);
    let name = Name::new(make_hash(0x01), &[b"test"]);
    assert!(!cs.contains(&name));
    cs.insert(name.clone(), make_data(name.clone()));
    assert!(cs.contains(&name));
}

#[test]
fn test_lru_eviction() {
    let mut cs = ContentStore::new(2);
    let a = Name::new(make_hash(0x01), &[b"a"]);
    let b = Name::new(make_hash(0x02), &[b"b"]);
    let c = Name::new(make_hash(0x03), &[b"c"]);

    cs.insert(a.clone(), make_data(a.clone()));
    cs.insert(b.clone(), make_data(b.clone()));
    cs.insert(c.clone(), make_data(c.clone()));

    assert_eq!(cs.len(), 2);
    assert!(!cs.contains(&a));
    assert!(cs.contains(&b));
    assert!(cs.contains(&c));
}

#[test]
fn test_get_touches_entry() {
    let mut cs = ContentStore::new(2);
    let a = Name::new(make_hash(0x01), &[b"a"]);
    let b = Name::new(make_hash(0x02), &[b"b"]);
    let c = Name::new(make_hash(0x03), &[b"c"]);

    cs.insert(a.clone(), make_data(a.clone()));
    cs.insert(b.clone(), make_data(b.clone()));

    cs.get(&a);
    cs.insert(c.clone(), make_data(c.clone()));

    assert!(cs.contains(&a));
    assert!(!cs.contains(&b));
    assert!(cs.contains(&c));
}

#[test]
fn test_prefix_match() {
    let mut cs = ContentStore::new(10);
    let prefix = Name::new(make_hash(0x01), &[b"app"]);
    let full = Name::new(make_hash(0x01), &[b"app", b"chat"]);

    cs.insert(prefix.clone(), make_data(prefix.clone()));

    let result = cs.get_prefix(&full);
    assert!(result.is_some());
}

#[test]
fn test_prefix_match_longest() {
    let mut cs = ContentStore::new(10);
    let short = Name::new(make_hash(0x01), &[b"app"]);
    let long = Name::new(make_hash(0x01), &[b"app", b"chat"]);
    let query = Name::new(make_hash(0x01), &[b"app", b"chat", b"v5"]);

    cs.insert(short.clone(), make_data(short.clone()));
    cs.insert(long.clone(), make_data(long.clone()));

    let result = cs.get_prefix(&query);
    assert!(result.is_some());
    assert_eq!(result.unwrap().name, long);
}

#[test]
fn test_hits_misses_counted() {
    let mut cs = ContentStore::new(10);
    let name = Name::new(make_hash(0x01), &[b"test"]);
    let missing = Name::new(make_hash(0x02), &[b"test"]);

    cs.insert(name.clone(), make_data(name.clone()));
    cs.get(&name);
    cs.get(&name);
    cs.get(&missing);

    assert_eq!(cs.hits(), 2);
    assert_eq!(cs.misses(), 1);
}

#[test]
fn inserting_again_hands_back_the_entry_before() {
    let mut cs = ContentStore::new(2);
    assert_eq!(cs.capacity(), 2);
    let a = make_name(1);
    assert!(cs.insert_at(a.clone(), make_data(a.clone()), 5).is_none());
    let old = cs.insert_at(a.clone(), make_data(a.clone()), 9).unwrap();
    assert_eq!(old.inserted_at, 5);
    assert_eq!(cs.len(), 1);
}

// Forwarder

fn done(step: Step) -> Result<Option<Data>, String> {
    match step {
        Step::Done(r) => r,
        _ => panic!("not done"),
    }
}

#[test]
fn test_express_cs_hit() {
    let mut fw = Forwarder::new();
    let name = make_name(0x01);
    let data = make_data(name.clone());
    fw.cs.insert(name.clone(), data.clone());

    let interest = Interest::new(name);
    let result = done(fw.express(&interest, 0, 1, at(0))).unwrap();
    assert!(result.is_some());
    assert_eq!(result.unwrap().content, b"content");
}

#[test]
fn test_express_no_route() {
    let mut fw = Forwarder::new();
    let name = make_name(0x01);
    let interest = Interest::new(name);

    let result = done(fw.express(&interest, 0, 1, at(0))).unwrap();
    assert!(result.is_none());
}

fn signed(keys: &Keys, content: &[u8]) -> Data {
    let name = Name::new(*keys.address().as_bytes(), &[b"test"]);
    let mut data = Data::new(name, content.to_vec(), Proof::from_bytes(&vec![0u8; 96]).unwrap());
    data.signature = generate_proof(keys, &data.signed_hash());
    data
}

#[test]
fn an_interest_is_forwarded_and_its_answer_cached() {
    let keys = Keys::generate();
    let data = signed(&keys, b"hello");
    let name = data.name.clone();
    let mut fw = Forwarder::new();
    fw.register_face(7, FaceCapabilities::in_memory());
    fw.add_route(name.clone(), 7, 10);
    fw.register_keys(*keys.address().as_bytes(), keys);

    let interest = Interest::new(name.clone()).with_lifetime(TimeSpan::from_millis(500));
    assert!(matches!(fw.express(&interest, 1, 1, at(0)), Step::Forward(7)));
    let second = Interest::new(name.clone());
    assert!(matches!(fw.express(&second, 2, 2, at(0)), Step::Wait));

    let (result, woken) = fw.complete(&name, Ok(Some(data)), at(0));
    assert_eq!(result.unwrap().unwrap().content, b"hello");
    assert_eq!(woken, vec![2]);

    let third = Interest::new(name.clone());
    assert_eq!(done(fw.express(&third, 1, 3, at(1))).unwrap().unwrap().content, b"hello");
    assert!(fw.cs().hits() > 0);
}

#[test]
fn test_express_timeout() {
    let name = make_name(1);
    let mut fw = Forwarder::new();
    fw.register_face(7, FaceCapabilities::in_memory());
    fw.add_route(name.clone(), 7, 10);
    let interest = Interest::new(name.clone()).with_lifetime(TimeSpan::from_millis(50));
    assert!(matches!(fw.express(&interest, 1, 1, at(0)), Step::Forward(7)));
    let (result, woken) = fw.complete(&name, Ok(None), at(1));
    assert_eq!(result, Ok(None));
    assert!(woken.is_empty());
    assert!(fw.pit().find(&name).is_none());
}

#[test]
fn data_nobody_asked_for_is_cached() {
    let keys = Keys::generate();
    let data = signed(&keys, b"unsolicited");
    let name = data.name.clone();
    let mut fw = Forwarder::new();
    fw.register_keys(*keys.address().as_bytes(), keys);
    let told = fw.receive_data(data, at(0)).unwrap();
    assert_eq!(told, Recipients { faces: vec![], waiters: vec![] });
    assert!(fw.cs().contains(&name));
    let interest = Interest::new(name);
    assert_eq!(done(fw.express(&interest, 0, 1, at(0))).unwrap().unwrap().content, b"unsolicited");
}

#[test]
fn data_goes_to_the_faces_that_asked() {
    let keys = Keys::generate();
    let data = signed(&keys, b"asked for");
    let name = data.name.clone();
    let mut fw = Forwarder::new();
    fw.register_keys(*keys.address().as_bytes(), keys);
    fw.register_face(7, FaceCapabilities::in_memory());
    fw.add_route(name.clone(), 7, 10);
    assert!(matches!(fw.express(&Interest::new(name.clone()), 1, 11, at(0)), Step::Forward(7)));
    assert!(matches!(fw.express(&Interest::new(name.clone()), 2, 12, at(0)), Step::Wait));
    let told = fw.receive_data(data, at(1)).unwrap();
    assert_eq!(told, Recipients { faces: vec![1], waiters: vec![12] });
    assert!(fw.pit().find(&name).is_none());
}

#[test]
fn the_first_data_counts() {
    let keys = Keys::generate();
    let a = signed(&keys, b"a");
    let b = signed(&keys, b"b");
    let answers = vec![Ok(None), Err("gone".to_string()), Ok(Some(a.clone())), Ok(Some(b))];
    assert_eq!(first_data(&answers).unwrap().content, a.content);
    assert!(first_data(&vec![Ok(None), Err("gone".to_string())]).is_none());
}

#[test]
fn a_name_starts_with_a_producer_hash() {
    assert_eq!(Name::from_bytes(&[1, 1, 7]), Err(NameError::InvalidProducer { got: 1 }));
    assert_eq!(
        NameError::InvalidProducer { got: 1 }.to_string(),
        "producer hash must be 32 bytes, got 1"
    );
    let name = Name::new([9; 32], &[b"x"]);
    let read = Name::from_bytes(&name.to_bytes()).unwrap();
    assert_eq!(read, name);
    assert_eq!(read.with_content_hash([1; 32]).producer_hash(), [9; 32]);
}

#[test]
fn data_with_a_wrong_proof_is_refused() {
    let keys = Keys::generate();
    let mut data = signed(&keys, b"right");
    data.content = b"wrong".to_vec();
    let name = data.name.clone();
    let mut fw = Forwarder::new();
    fw.register_keys(*keys.address().as_bytes(), keys);
    let err = fw.receive_data(data, at(0)).unwrap_err();
    assert!(err.starts_with("signature verification failed: "));
    assert!(!fw.cs().contains(&name));
}

#[test]
fn test_unsolicited_data_unknown_producer_rejected() {
    let mut fw = Forwarder::new();
    let name = make_name(0x01);
    let data = Data::new(name, b"bad".to_vec(), Proof::from_bytes(&vec![0u8; 96]).unwrap());

    let result = fw.receive_data(data, at(0));
    assert!(result.is_err());
    assert!(result.unwrap_err().contains("unknown producer"));
}

#[test]
fn a_repeated_nonce_is_a_loop() {
    let mut fw = Forwarder::new();
    let interest = Interest::with_nonce(make_name(1), [1; 8]);
    let _ = fw.express(&interest, 3, 1, at(0));
    assert!(done(fw.express(&interest, 3, 1, at(0))).is_err());
}

#[test]
fn the_longest_route_counts() {
    let mut fw = Forwarder::new();
    fw.register_face(1, FaceCapabilities::in_memory());
    fw.register_face(2, FaceCapabilities::in_memory());
    fw.add_route(Name::new(make_hash(1), &[]), 1, 1);
    fw.add_route(make_name(1), 2, 9);
    let interest = Interest::new(Name::new(make_hash(1), &[b"test", b"more"]));
    assert!(matches!(fw.express(&interest, 5, 1, at(0)), Step::Forward(2)));
    fw.unregister_face(2);
    let other = Interest::new(Name::new(make_hash(1), &[b"test", b"else"]));
    assert!(matches!(fw.express(&other, 5, 1, at(0)), Step::Forward(1)));
}

// Faces over links

#[test]
fn test_linkface_interest_data_round_trip() {
    let keys_a = Keys::generate();
    let keys_b = Keys::generate();
    let addr_a = keys_a.rns_address();
    let addr_b = keys_b.rns_address();

    let dest_a = Destination::singleton(keys_a.clone(), "test_app", Vec::new());
    let dest_b = Destination::singleton(keys_b.clone(), "test_app", Vec::new());

    let config = LinkConfig::default();
    let link_a = Link::with_config(dest_a, addr_b, config.clone());
    let link_b = Link::with_config(dest_b, addr_a, config);

    let face_a = LinkFace::new(1, link_a);
    let face_b = LinkFace::new(2, link_b);

    assert_eq!(face_a.id(), 1);
    assert_eq!(face_b.id(), 2);
    assert_eq!(face_a.capabilities().disruption_tolerance, TimeSpan::from_secs(3600));
}

// Manifests

#[test]
fn test_parse_name_from_display() {
    let name_str = "/aa000000..00000000/hello/world";
    let name = parse_name_from_display(name_str).unwrap();
    assert_eq!(name.components().len(), 3);
    assert_eq!(name.components()[1], b"hello");
    assert_eq!(name.components()[2], b"world");
}

#[test]
fn test_parse_name_with_content_hash() {
    let name_str = "/aa000000..00000000/data?blake3=bb00000000000000000000000000000000000000000000000000000000000000";
    let name = parse_name_from_display(name_str).unwrap();
    assert!(name.content_hash().is_some());
}

#[test]
fn a_displayed_name_is_read_back() {
    let name = Name::new(make_hash(0xAA), &[b"app", b"chat"]).with_content_hash(make_hash(0xBB));
    let text = name.to_string();
    assert!(is_readable(&text));
    assert_eq!(parse_name_from_display(&text), Ok(name));
}

#[test]
fn entry_kinds_have_names() {
    assert_eq!(EntryKind::Blob.as_str(), "blob");
    assert_eq!(EntryKind::Stream.as_str(), "stream");
    assert_eq!(EntryKind::Manifest.as_str(), "manifest");
}

fn manifest(producer: [u8; 32]) -> Manifest {
    Manifest {
        producer,
        sequence: 3,
        timestamp: 1715700000,
        entries: vec![ManifestEntry {
            kind: EntryKind::Blob,
            label: "hello".to_string(),
            content_name: Name::new(producer, &[b"hello"]),
            content_hash: Some(make_hash(0xBB)),
            size: Some(42),
        }],
        previous: None,
    }
}

#[test]
fn manifests_belong_to_their_producer() {
    let keys = Keys::generate();
    let producer = *keys.address().as_bytes();
    let m = manifest(producer);
    assert_eq!(m.find("hello").unwrap().size, Some(42));
    assert!(m.find("other").is_none());
    assert!(m.is_newer_than(2));
    assert!(!m.is_newer_than(3));
    let data = m.to_data(b"{}".to_vec(), &keys);
    assert_eq!(data.metadata.sequence, Some(3));
    assert_eq!(Manifest::from_data(&data, Ok(m.clone())), Ok(m));
}

#[test]
fn a_manifest_with_changed_content_is_refused() {
    let keys = Keys::generate();
    let m = manifest(*keys.address().as_bytes());
    let mut data = m.to_data(b"{}".to_vec(), &keys);
    data.content = b"[]".to_vec();
    let actual = *blake3::hash(b"[]").as_bytes();
    let expected = *blake3::hash(b"{}").as_bytes();
    assert_eq!(
        Manifest::from_data(&data, Ok(m)),
        Err(ManifestError::ContentHashMismatch { expected, actual })
    );
    let unread = Manifest::from_data(&data, Err("bad".to_string())).unwrap_err();
    assert_eq!(unread.to_string(), "JSON serialization failed: bad");
}

#[test]
fn content_crosses_between_forwarders_by_name() {
    let keys = Keys::generate();
    let producer: [u8; 32] = *keys.address().as_bytes();
    let manifest = first_manifest(producer, "hello", 1715700000);
    assert_eq!(manifest.sequence, 1);
    assert_eq!(manifest.timestamp, 1715700000);
    assert_eq!(manifest.entries.len(), 1);
    assert_eq!(manifest.entries[0].label, "hello");
    let name = Name::new(producer, &[b"hello"]);
    assert_eq!(manifest.entries[0].content_name, name);

    let data = signed_content(name.clone(), b"fetched by name".to_vec(), &keys);
    assert_eq!(hash_verified(&data), Some(true));
    let mut producer_fw = Forwarder::new();
    producer_fw.cs_mut().insert(name.clone(), data.clone());

    let mut consumer = Forwarder::new();
    consumer.register_keys(producer, keys);
    consumer.register_face(7, FaceCapabilities::in_memory());
    consumer.add_route(Name::new(producer, &[]), 7, 10);
    let interest = Interest::new(name.clone());
    assert!(matches!(consumer.express(&interest, 0, 1, at(100)), Step::Forward(7)));
    let answer = serve(&mut producer_fw, &interest);
    assert_eq!(answer, Some(data.clone()));
    let (result, woken) = consumer.complete(&name, Ok(answer), at(101));
    assert_eq!(result, Ok(Some(data.clone())));
    assert!(woken.is_empty());
    assert!(consumer.cs().contains(&name));

    let again = Interest::new(name.clone());
    assert_eq!(done(consumer.express(&again, 0, 2, at(102))), Ok(Some(data)));
    let other = Interest::new(Name::new(producer, &[b"other"]));
    assert_eq!(serve(&mut producer_fw, &other), None);
}

#[test]
fn changed_content_fails_its_hash() {
    let keys = Keys::generate();
    let name = Name::new(*keys.address().as_bytes(), &[b"x"]);
    let mut data = signed_content(name, b"abc".to_vec(), &keys);
    data.content.push(0);
    assert_eq!(hash_verified(&data), Some(false));
    data.metadata.content_hash = None;
    assert_eq!(hash_verified(&data), None);
}
