//! Packets.

use rsticulum::identity::RnsAddress;
use rsticulum::packet::{ANNOUNCE, CACHE_REQUEST, COMMAND, DATA, DEST_LINK, DEST_SINGLE, FLAG_SET, FLAG_UNSET, HASH_LENGTH, HEADER_1, HEADER_2, HEADER_MAXSIZE, HEADER_MINSIZE, KEEPALIVE, LINKCLOSE, LINKIDENTITY, LINKPROOF, LINKREQUEST, LRPROOF, MAX_HOPS, NONE, PATH_RESPONSE, PROOF, Packet, REQUEST, RESOURCE_ADV, RESOURCE_HMU, RESOURCE_PRF, RESOURCE_REQ, RESPONSE, TRANSPORT_BROADCAST, TRANSPORT_UNICAST, pack_flags, unpack_flags};

/// Helper: create an RnsAddress deterministically from a single seed byte.
fn test_addr(b: u8) -> RnsAddress {
    RnsAddress::from_identity_key(&[b; 32])
}

#[test]
fn constants_match_spec() {
    assert_eq!(DATA, 0x00);
    assert_eq!(ANNOUNCE, 0x01);
    assert_eq!(LINKREQUEST, 0x02);
    assert_eq!(PROOF, 0x03);
    assert_eq!(HEADER_1, 0x00);
    assert_eq!(HEADER_2, 0x01);
    assert_eq!(NONE, 0x00);
    assert_eq!(LRPROOF, 0xFF);
    assert_eq!(DEST_SINGLE, 0x00);
    assert_eq!(DEST_LINK, 0x01);
    assert_eq!(FLAG_UNSET, 0x00);
    assert_eq!(FLAG_SET, 0x01);
    assert_eq!(TRANSPORT_BROADCAST, 0x00);
    assert_eq!(TRANSPORT_UNICAST, 0x01);
    assert_eq!(HASH_LENGTH, 16);
    assert_eq!(HEADER_MINSIZE, 19);
    assert_eq!(HEADER_MAXSIZE, 35);
    assert_eq!(MAX_HOPS, 64);
}

#[test]
fn flag_packing_roundtrip_all_combinations() {
    let test_cases = [
        (HEADER_1, FLAG_UNSET, TRANSPORT_BROADCAST, DEST_SINGLE, DATA),
        (
            HEADER_1,
            FLAG_SET,
            TRANSPORT_BROADCAST,
            DEST_SINGLE,
            ANNOUNCE,
        ),
        (
            HEADER_1,
            FLAG_UNSET,
            TRANSPORT_BROADCAST,
            DEST_SINGLE,
            LINKREQUEST,
        ),
        (HEADER_1, FLAG_SET, TRANSPORT_UNICAST, DEST_SINGLE, PROOF),
        (HEADER_2, FLAG_UNSET, TRANSPORT_UNICAST, DEST_SINGLE, DATA),
        (HEADER_1, FLAG_UNSET, TRANSPORT_BROADCAST, DEST_LINK, DATA),
        (HEADER_1, FLAG_SET, TRANSPORT_BROADCAST, DEST_LINK, ANNOUNCE),
        (HEADER_2, FLAG_SET, TRANSPORT_UNICAST, DEST_LINK, DATA),
        (HEADER_2, FLAG_UNSET, TRANSPORT_UNICAST, DEST_LINK, PROOF),
    ];

    for (ht, cf, tt, dt, pt) in test_cases {
        let flags = pack_flags(ht, cf, tt, dt, pt);
        let (ht2, cf2, tt2, dt2, pt2) = unpack_flags(flags);
        assert_eq!(
            ht, ht2,
            "header_type mismatch: {ht} vs {ht2}, flags=0x{flags:02X}"
        );
        assert_eq!(
            cf, cf2,
            "context_flag mismatch: {cf} vs {cf2}, flags=0x{flags:02X}"
        );
        assert_eq!(
            tt, tt2,
            "transport_type mismatch: {tt} vs {tt2}, flags=0x{flags:02X}"
        );
        assert_eq!(
            dt, dt2,
            "destination_type mismatch: {dt} vs {dt2}, flags=0x{flags:02X}"
        );
        assert_eq!(
            pt, pt2,
            "packet_type mismatch: {pt} vs {pt2}, flags=0x{flags:02X}"
        );
    }
}

#[test]
fn announce_flags_byte_matches_rns() {
    // Flags of an announce packet:
    // HEADER_1=0, FLAG_SET=1, TRANSPORT_BROADCAST=0, DEST_SINGLE=0, ANNOUNCE=1
    // Binary: 00_1_0_00_01 = 0b00100001 = 0x21
    let flags = pack_flags(
        HEADER_1,
        FLAG_SET,
        TRANSPORT_BROADCAST,
        DEST_SINGLE,
        ANNOUNCE,
    );
    assert_eq!(flags, 0x21);
}

#[test]
fn data_flags_byte_matches_rns() {
    // Flags of a data packet:
    // HEADER_1=0, FLAG_UNSET=0, BROADCAST=0, DEST_SINGLE=0, DATA=0
    // Binary: 00_0_0_00_00 = 0x00
    let flags = pack_flags(HEADER_1, FLAG_UNSET, TRANSPORT_BROADCAST, DEST_SINGLE, DATA);
    assert_eq!(flags, 0x00);
}

#[test]
fn header2_unicast_flags_byte() {
    // HEADER_2=1, FLAG_UNSET=0, TRANSPORT_UNICAST=1, DEST_SINGLE=0, DATA=0
    // Binary: 01_0_1_00_00 = 0b01010000 = 0x50
    let flags = pack_flags(HEADER_2, FLAG_UNSET, TRANSPORT_UNICAST, DEST_SINGLE, DATA);
    assert_eq!(flags, 0x50);
}

#[test]
fn link_request_flags_byte() {
    // HEADER_1=0, FLAG_UNSET=0, TRANSPORT_BROADCAST=0, DEST_SINGLE=0, LINKREQUEST=2
    // Binary: 00_0_0_00_10 = 0x02
    let flags = pack_flags(
        HEADER_1,
        FLAG_UNSET,
        TRANSPORT_BROADCAST,
        DEST_SINGLE,
        LINKREQUEST,
    );
    assert_eq!(flags, 0x02);
}

#[test]
fn proof_flags_byte() {
    // HEADER_1=0, FLAG_SET=1, TRANSPORT_UNICAST=1, DEST_SINGLE=0, PROOF=3
    // Binary: 00_1_1_00_11 = 0b00110011 = 0x33
    let flags = pack_flags(HEADER_1, FLAG_SET, TRANSPORT_UNICAST, DEST_SINGLE, PROOF);
    assert_eq!(flags, 0x33);
}

#[test]
fn unpack_flags_all_zero() {
    let (ht, cf, tt, dt, pt) = unpack_flags(0x00);
    assert_eq!(ht, HEADER_1);
    assert_eq!(cf, FLAG_UNSET);
    assert_eq!(tt, TRANSPORT_BROADCAST);
    assert_eq!(dt, DEST_SINGLE);
    assert_eq!(pt, DATA);
}

#[test]
fn pack_flags_masks_inputs() {
    // Values with extra bits set should be masked down
    let flags = pack_flags(0xFF, 0xFF, 0xFF, 0xFF, 0xFF);
    let (ht, cf, tt, dt, pt) = unpack_flags(flags);
    assert_eq!(ht, 0x03, "header_type should be masked to 2 bits");
    assert_eq!(cf, 0x01, "context_flag should be masked to 1 bit");
    assert_eq!(tt, 0x01, "transport_type should be masked to 1 bit");
    assert_eq!(dt, 0x03, "destination_type should be masked to 2 bits");
    assert_eq!(pt, 0x03, "packet_type should be masked to 2 bits");

    // The resulting packed byte: 11_1_1_11_11 = 0xFF
    assert_eq!(flags, 0xFF);
}

#[test]
fn data_packet_roundtrip() {
    let dest = test_addr(1);
    let pkt = Packet::new_data(dest, b"hello, reticulum!".to_vec());
    let bytes = pkt.to_bytes();

    // Verify header size: flags(1) + hops(1) + dest(16) + context(1) = 19
    // + 17 bytes payload = 36
    assert_eq!(bytes.len(), HEADER_MINSIZE + 17);

    let decoded = Packet::from_bytes(&bytes).unwrap();
    assert_eq!(decoded.packet_type, DATA);
    assert_eq!(decoded.header_type, HEADER_1);
    assert_eq!(decoded.hops, MAX_HOPS);
    assert_eq!(decoded.destination_hash, *dest.as_bytes());
    assert_eq!(decoded.context, NONE);
    assert_eq!(decoded.data, b"hello, reticulum!");
    assert_eq!(decoded.transport_id, None);
}

#[test]
fn empty_data_packet_roundtrip() {
    let dest = test_addr(2);
    let pkt = Packet::new_data(dest, vec![]);
    let bytes = pkt.to_bytes();

    // HEADER_1 minimum: 19 bytes, no payload
    assert_eq!(bytes.len(), HEADER_MINSIZE);

    let decoded = Packet::from_bytes(&bytes).unwrap();
    assert_eq!(decoded.data.len(), 0);
    assert_eq!(decoded.packet_type, DATA);
}

#[test]
fn announce_packet_roundtrip() {
    let broadcast = test_addr(0);
    let pkt = Packet::new_announce(broadcast, b"announce payload".to_vec());
    let bytes = pkt.to_bytes();

    let decoded = Packet::from_bytes(&bytes).unwrap();
    assert_eq!(decoded.packet_type, ANNOUNCE);
    assert_eq!(decoded.context_flag, FLAG_SET);
    assert_eq!(decoded.hops, 1);
    assert_eq!(decoded.data, b"announce payload");
}

#[test]
fn link_request_packet_roundtrip() {
    let dest = test_addr(3);
    let pkt = Packet::new_link_request(dest, b"link request data".to_vec());
    let bytes = pkt.to_bytes();

    let decoded = Packet::from_bytes(&bytes).unwrap();
    assert_eq!(decoded.packet_type, LINKREQUEST);
    assert_eq!(decoded.header_type, HEADER_1);
    assert_eq!(decoded.transport_id, None);
    assert_eq!(decoded.data, b"link request data");
}

#[test]
fn proof_packet_roundtrip() {
    let dest = test_addr(4);
    let pkt = Packet::new_proof(dest, LRPROOF, b"proof data".to_vec());
    let bytes = pkt.to_bytes();

    let decoded = Packet::from_bytes(&bytes).unwrap();
    assert_eq!(decoded.packet_type, PROOF);
    assert_eq!(decoded.context_flag, FLAG_SET);
    assert_eq!(decoded.transport_type, TRANSPORT_UNICAST);
    assert_eq!(decoded.context, LRPROOF);
    assert_eq!(decoded.data, b"proof data");
}

#[test]
fn proof_packet_with_different_contexts() {
    for ctx in [LRPROOF, LINKPROOF, LINKIDENTITY, LINKCLOSE, NONE] {
        let dest = test_addr(5);
        let pkt = Packet::new_proof(dest, ctx, vec![0xAB, 0xCD]);
        let bytes = pkt.to_bytes();
        let decoded = Packet::from_bytes(&bytes).unwrap();
        assert_eq!(decoded.context, ctx, "context {ctx:#04X} should roundtrip");
        assert_eq!(decoded.data, vec![0xAB, 0xCD]);
    }
}

#[test]
fn header2_transport_packet_roundtrip() {
    let dest = test_addr(42);
    let tid = [0xAB; HASH_LENGTH];
    let pkt = Packet::new_transport(dest, tid, b"transport data".to_vec());
    let bytes = pkt.to_bytes();

    // HEADER_2: flags(1) + hops(1) + transport_id(16) + dest(16) + context(1)
    // = 35 + 14 bytes payload
    assert_eq!(bytes.len(), HEADER_MAXSIZE + 14);

    let decoded = Packet::from_bytes(&bytes).unwrap();
    assert_eq!(decoded.header_type, HEADER_2);
    assert_eq!(decoded.transport_id, Some(tid));
    assert_eq!(decoded.transport_type, TRANSPORT_UNICAST);
    assert_eq!(decoded.data, b"transport data");
}

#[test]
fn header2_empty_payload() {
    let dest = test_addr(7);
    let tid = [0xCD; HASH_LENGTH];
    let pkt = Packet::new_transport(dest, tid, vec![]);
    let bytes = pkt.to_bytes();

    // HEADER_2 minimum: 35 bytes, no payload
    assert_eq!(bytes.len(), HEADER_MAXSIZE);

    let decoded = Packet::from_bytes(&bytes).unwrap();
    assert_eq!(decoded.header_type, HEADER_2);
    assert_eq!(decoded.data.len(), 0);
}

#[test]
fn destination_type_link_roundtrip() {
    let dest = test_addr(8);
    let mut pkt = Packet::new_data(dest, vec![0x01, 0x02, 0x03]);
    pkt.destination_type = DEST_LINK;

    let bytes = pkt.to_bytes();
    let decoded = Packet::from_bytes(&bytes).unwrap();
    assert_eq!(decoded.destination_type, DEST_LINK);
}

#[test]
fn all_context_constants_roundtrip() {
    let contexts = [
        NONE,
        PATH_RESPONSE,
        CACHE_REQUEST,
        REQUEST,
        RESPONSE,
        COMMAND,
        KEEPALIVE,
        RESOURCE_PRF,
        RESOURCE_ADV,
        RESOURCE_REQ,
        RESOURCE_HMU,
        LRPROOF,
    ];

    for ctx in contexts {
        let dest = test_addr(9);
        let mut pkt = Packet::new_data(dest, vec![0x42]);
        pkt.context = ctx;
        let bytes = pkt.to_bytes();
        let decoded = Packet::from_bytes(&bytes).unwrap();
        assert_eq!(
            decoded.context, ctx,
            "context {ctx:#04X} should survive roundtrip"
        );
    }
}

#[test]
fn large_data_packet_roundtrip() {
    let dest = test_addr(10);
    let large_data = vec![0xAA; 4096];
    let pkt = Packet::new_data(dest, large_data.clone());
    let bytes = pkt.to_bytes();

    assert_eq!(bytes.len(), HEADER_MINSIZE + 4096);

    let decoded = Packet::from_bytes(&bytes).unwrap();
    assert_eq!(decoded.data, large_data);
    assert_eq!(decoded.packet_type, DATA);
}

#[test]
fn serialization_is_deterministic() {
    let dest = test_addr(11);
    let pkt = Packet::new_data(dest, vec![1, 2, 3]);
    let bytes1 = pkt.to_bytes();
    let bytes2 = pkt.to_bytes();
    assert_eq!(bytes1, bytes2);
}

#[test]
fn ttl_starts_at_max_hops() {
    let dest = test_addr(1);
    let pkt = Packet::new_data(dest, vec![]);
    assert_eq!(pkt.hops, MAX_HOPS);
    assert!(!pkt.is_expired());
}

#[test]
fn ttl_decrements_to_zero() {
    let dest = test_addr(1);
    let mut pkt = Packet::new_data(dest, vec![]);
    assert!(!pkt.is_expired());

    for i in 1..=MAX_HOPS {
        pkt.decrement_ttl();
        let remaining = MAX_HOPS - i;
        assert_eq!(
            pkt.hops, remaining,
            "after {i} decrements, hops should be {remaining}"
        );
        assert_eq!(pkt.is_expired(), remaining == 0);
    }
}

#[test]
fn ttl_saturates_at_zero() {
    let dest = test_addr(1);
    let mut pkt = Packet::new_data(dest, vec![]);

    // Decrement all the way down
    for _ in 0..MAX_HOPS {
        pkt.decrement_ttl();
    }
    assert_eq!(pkt.hops, 0);
    assert!(pkt.is_expired());

    // Further decrements stay at 0
    for _ in 0..10 {
        pkt.decrement_ttl();
        assert_eq!(pkt.hops, 0);
        assert!(pkt.is_expired());
    }
}

#[test]
fn is_expired_only_at_zero() {
    let dest = test_addr(1);
    let mut pkt = Packet::new_data(dest, vec![]);

    pkt.hops = 1;
    assert!(!pkt.is_expired());

    pkt.decrement_ttl();
    assert_eq!(pkt.hops, 0);
    assert!(pkt.is_expired());
}

#[test]
fn invalid_bytes_rejected() {
    // Empty
    assert!(Packet::from_bytes(&[]).is_err());
    // Too short: only flags
    assert!(Packet::from_bytes(&[0x00]).is_err());
    // Too short: flags + hops only
    assert!(Packet::from_bytes(&[0x00, 0x01]).is_err());
}

#[test]
fn header1_too_short_rejected() {
    // HEADER_1 flags (0x00) + hops, but not enough for dest_hash + context
    let short = [0x00, 0x0A, 0x00, 0x00]; // 4 bytes, need at least 19
    assert!(Packet::from_bytes(&short).is_err());
}

#[test]
fn header2_too_short_rejected() {
    // HEADER_2 flags (0x40) + hops, but not enough for transport_id + dest_hash + context
    let short = [0x40, 0x01, 0x00]; // 3 bytes, need at least 35
    assert!(Packet::from_bytes(&short).is_err());
}

#[test]
fn header2_exactly_at_boundary_accepted() {
    // Minimum HEADER_2: 1 + 1 + 16 + 16 + 1 = 35 bytes, zero payload
    let mut data = vec![0u8; HEADER_MAXSIZE];
    // flags: HEADER_2(1) | UNICAST(1) = 0b01010000 = 0x50
    data[0] = pack_flags(HEADER_2, FLAG_UNSET, TRANSPORT_UNICAST, DEST_SINGLE, DATA);
    data[1] = MAX_HOPS;
    // transport_id = [2..18], dest_hash = [18..34], context = data[34]

    let pkt = Packet::from_bytes(&data).unwrap();
    assert_eq!(pkt.header_type, HEADER_2);
    assert_eq!(pkt.transport_id, Some([0u8; HASH_LENGTH]));
    assert_eq!(pkt.data.len(), 0);
}

#[test]
fn header1_exactly_at_boundary_accepted() {
    // Minimum HEADER_1: 1 + 1 + 16 + 1 = 19 bytes, zero payload
    let mut data = vec![0u8; HEADER_MINSIZE];
    data[0] = pack_flags(HEADER_1, FLAG_UNSET, TRANSPORT_BROADCAST, DEST_SINGLE, DATA);
    data[1] = MAX_HOPS;
    // dest_hash = [2..18], context = data[18]

    let pkt = Packet::from_bytes(&data).unwrap();
    assert_eq!(pkt.header_type, HEADER_1);
    assert_eq!(pkt.transport_id, None);
    assert_eq!(pkt.data.len(), 0);
}

#[test]
fn destination_accessor_roundtrip() {
    let orig = test_addr(42);
    let pkt = Packet::new_data(orig, vec![0x01]);
    let recovered = pkt.destination().unwrap();
    assert_eq!(orig, recovered);
}

#[test]
fn identical_packets_are_equal() {
    let dest = test_addr(99);
    let p1 = Packet::new_data(dest, vec![1, 2, 3]);
    let p2 = Packet::new_data(dest, vec![1, 2, 3]);
    assert_eq!(p1, p2);
}

#[test]
fn different_data_packets_are_not_equal() {
    let dest = test_addr(99);
    let p1 = Packet::new_data(dest, vec![1, 2, 3]);
    let p2 = Packet::new_data(dest, vec![4, 5, 6]);
    assert_ne!(p1, p2);
}
