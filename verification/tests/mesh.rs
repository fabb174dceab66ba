//! Routes, peers and path requests.

use rsticulum::identity::RnsAddress;
use rsticulum::mesh::path_request::{handle_path_reply, handle_path_request};
use rsticulum::mesh::score::{is_above, is_level, lower_of};
use rsticulum::mesh::udp::{frame_source, Source, UdpPeers};
use rsticulum::mesh::{
    AnnouncePayload, LinkConfig, LinkManager, LinkQuality, MeshError, MeshRouter, PathReply,
    PathRequest, PERFECT_QUALITY,
};
use rsticulum::packet::Packet;
use rsticulum::span::TimeSpan;

fn test_addr(b: u8) -> RnsAddress {
    RnsAddress::from_identity_key(&[b; 32])
}

fn at(secs: u64) -> TimeSpan {
    TimeSpan::from_secs(secs)
}

#[test]
fn path_request_deduplicates_hops() {
    let dest = test_addr(99);
    let mut req = PathRequest::new(dest, 10);

    req.add_hop(test_addr(1));
    req.add_hop(test_addr(2));
    req.add_hop(test_addr(1));

    assert_eq!(req.path.len(), 2);
}

#[test]
fn path_request_ttl_expiry() {
    let mut req = PathRequest::new(test_addr(99), 2);
    req.add_hop(test_addr(1));
    assert!(!req.is_expired());
    req.add_hop(test_addr(2));
    assert!(req.is_expired());
}

#[test]
fn path_reply_roundtrip() {
    let dest = test_addr(42);
    let route = vec![test_addr(1), test_addr(2), test_addr(3)];
    let reply = PathReply::new([0xAA; 16], dest, route.clone(), 0.8f64.to_bits(), 3);

    assert_eq!(reply.destination().unwrap(), dest);
    assert_eq!(f64::from_bits(reply.quality), 0.8);
    assert_eq!(reply.hop_count, 3);
    assert_eq!(reply.route, route);
}

#[test]
fn route_update_basic() {
    let local = test_addr(0);
    let mut router = MeshRouter::new(local);
    let dest = test_addr(1);
    let hop = test_addr(2);
    router.update_route(dest, hop, 0.9f64.to_bits(), 1, at(0));
    assert_eq!(router.next_hop(&dest).unwrap().next_hop, hop);
}

#[test]
fn best_path_wins() {
    let local = test_addr(0);
    let mut router = MeshRouter::new(local);
    let dest = test_addr(1);
    router.update_route(dest, test_addr(2), 0.3f64.to_bits(), 1, at(0));
    router.update_route(dest, test_addr(3), 0.9f64.to_bits(), 2, at(0));
    assert_eq!(router.next_hop(&dest).unwrap().next_hop, test_addr(3));
}

#[test]
fn a_worse_path_does_not_replace_a_better_one() {
    let mut router = MeshRouter::new(test_addr(0));
    let dest = test_addr(1);
    router.update_route(dest, test_addr(3), 0.9f64.to_bits(), 2, at(0));
    router.update_route(dest, test_addr(2), 0.3f64.to_bits(), 1, at(0));
    assert_eq!(router.next_hop(&dest).unwrap().next_hop, test_addr(3));
    assert_eq!(router.route_count(), 1);
    assert_eq!(router.destinations(), vec![dest]);
}

#[test]
fn the_node_asked_for_answers() {
    let local = test_addr(5);
    let router = MeshRouter::new(local);
    let mut req = PathRequest::with_id(local, 10, [7; 16]);
    req.add_hop(test_addr(1));
    let reply = handle_path_request(&req, &router, local).unwrap();
    assert_eq!(reply.request_id, [7; 16]);
    assert_eq!(reply.quality, PERFECT_QUALITY);
    assert_eq!(reply.destination(), Ok(local));
}

#[test]
fn a_node_that_knows_nothing_does_not_answer() {
    let router = MeshRouter::new(test_addr(5));
    let req = PathRequest::new(test_addr(6), 10);
    assert!(handle_path_request(&req, &router, test_addr(5)).is_none());
}

#[test]
fn a_reply_goes_on_along_its_route() {
    let local = test_addr(2);
    let mut router = MeshRouter::new(local);
    let route = vec![test_addr(1), local, test_addr(3)];
    let reply = PathReply::new([0; 16], test_addr(9), route, PERFECT_QUALITY, 3);
    let next = handle_path_reply(&reply, &mut router, local, at(0));
    assert_eq!(next, Some(test_addr(3)));
    let route = router.next_hop(&test_addr(9)).unwrap();
    assert_eq!(route.next_hop, test_addr(1));
    assert_eq!(route.hop_count, 4);
}

#[test]
fn silent_peers_are_dropped() {
    let mut peers = LinkManager::new("udp".to_string(), LinkConfig::default());
    peers.record_heartbeat(test_addr(1), LinkQuality::default(), at(0));
    assert_eq!(peers.peers().len(), 1);
    assert!(peers.quality_to(&test_addr(1)).is_some());
    assert!(peers.quality_to(&test_addr(2)).is_none());
    peers.prune_stale(at(1_000_000));
    assert!(peers.peers().is_empty());
}

#[test]
fn announced_routes_are_taken_over() {
    let mut router = MeshRouter::new(test_addr(0));
    let mut peers = LinkManager::new("udp".to_string(), LinkConfig::default());
    let announce = AnnouncePayload {
        origin: test_addr(1),
        peers: vec![(test_addr(2), 0.5f64.to_bits())],
    };
    router.process_announce(test_addr(1), &peers, &announce, at(0));
    assert_eq!(router.route_count(), 0);
    peers.record_heartbeat(test_addr(1), LinkQuality::default(), at(0));
    router.process_announce(test_addr(1), &peers, &announce, at(0));
    assert_eq!(router.next_hop(&test_addr(1)).unwrap().hop_count, 1);
    let far = router.next_hop(&test_addr(2)).unwrap();
    assert_eq!(far.next_hop, test_addr(1));
    assert_eq!(far.hop_count, 2);
}

#[test]
fn old_routes_are_dropped() {
    let mut router = MeshRouter::new(test_addr(0));
    router.update_route(test_addr(1), test_addr(2), PERFECT_QUALITY, 1, at(0));
    router.prune_stale(at(1));
    assert_eq!(router.route_count(), 1);
    router.prune_stale(at(1_000_000));
    assert_eq!(router.route_count(), 0);
}

#[test]
fn an_announce_lists_the_peers() {
    let router = MeshRouter::new(test_addr(0));
    let mut peers = LinkManager::new("udp".to_string(), LinkConfig::default());
    let alone = router.build_announce(&peers);
    assert_eq!(alone.packet_type, 1);
    peers.record_heartbeat(test_addr(1), LinkQuality::default(), at(0));
    let listed = router.build_announce(&peers);
    assert!(listed.data.len() > alone.data.len());
}

#[test]
fn the_source_of_a_frame() {
    let pkt = Packet::new_data(test_addr(2), b"hello, mesh!".to_vec());
    assert_eq!(frame_source(&pkt.to_bytes()), Source::Assumed(test_addr(2)));
    assert_eq!(frame_source(b"?"), Source::Unknown);
    let announce = Packet::new_announce(test_addr(2), vec![7; 32]);
    assert_eq!(frame_source(&announce.to_bytes()), Source::Announced(test_addr(7)));
}

#[test]
fn frames_belong_to_the_peer_at_their_endpoint() {
    let mut peers = UdpPeers::new();
    peers.add_peer(test_addr(1), "127.0.0.1:1".to_string());
    let pkt = Packet::new_data(test_addr(2), b"hello, mesh!".to_vec()).to_bytes();
    assert_eq!(peers.attribute("127.0.0.1:1", &pkt), Some(test_addr(1)));
    assert_eq!(peers.attribute("127.0.0.1:9", &pkt), Some(test_addr(2)));
    assert_eq!(peers.attribute("127.0.0.1:9", b"?"), None);
    let announce = Packet::new_announce(test_addr(2), vec![7; 32]).to_bytes();
    assert_eq!(peers.attribute("127.0.0.1:9", &announce), Some(test_addr(7)));
    assert_eq!(peers.attribute("127.0.0.1:9", b"?"), Some(test_addr(7)));
    assert_eq!(peers.endpoint_of(&test_addr(7)), Ok(&"127.0.0.1:9".to_string()));
    let unknown = test_addr(8);
    assert_eq!(
        peers.endpoint_of(&unknown),
        Err(MeshError::UnknownPeer(hex::encode(unknown.as_bytes())))
    );
}

#[test]
fn a_reply_goes_back_the_way_its_request_came() {
    let (a, b, c) = (test_addr(1), test_addr(2), test_addr(3));
    let mut request = PathRequest::new(c, 10);
    request.add_hop(a);
    request.add_hop(b);
    let reply = handle_path_request(&request, &MeshRouter::new(c), c).unwrap();
    assert_eq!(reply.route, vec![c, b, a]);

    let mut at_b = MeshRouter::new(b);
    assert_eq!(handle_path_reply(&reply, &mut at_b, b, at(0)), Some(a));
    assert_eq!(at_b.next_hop(&c).unwrap().next_hop, c);
    assert_eq!(at_b.next_hop(&c).unwrap().hop_count, 1);
    let mut at_a = MeshRouter::new(a);
    assert_eq!(handle_path_reply(&reply, &mut at_a, a, at(0)), None);
    assert_eq!(at_a.next_hop(&c).unwrap().next_hop, b);
    assert_eq!(at_a.next_hop(&c).unwrap().hop_count, 2);
}

#[test]
fn two_nodes_exchange_data() {
    let a1 = test_addr(1);
    let a2 = test_addr(2);
    let mut m1 = UdpPeers::new();
    let mut m2 = UdpPeers::new();
    let (sa1, sa2) = ("127.0.0.1:40001", "127.0.0.1:40002");
    m1.add_peer(a2, sa2.to_string());
    m2.add_peer(a1, sa1.to_string());

    let pkt = Packet::new_data(a2, b"hello, mesh!".to_vec());
    assert_eq!(m1.endpoint_of(&a2), Ok(&sa2.to_string()));
    let data = pkt.to_bytes();

    let src = m2.attribute(sa1, &data).unwrap();
    assert_eq!(src, a1);
    let recv_pkt = Packet::from_bytes(&data).unwrap();
    assert_eq!(recv_pkt.data, b"hello, mesh!");
}

#[test]
fn scores_are_compared_as_numbers() {
    let numbers = [
        f64::NEG_INFINITY, -2.5, -1.0, -f64::MIN_POSITIVE, -0.0, 0.0, 1e-300, 0.5, 1.0, 7.25,
        f64::INFINITY, f64::NAN, -f64::NAN,
    ];
    for a in numbers {
        for b in numbers {
            assert_eq!(is_above(a.to_bits(), b.to_bits()), a > b);
            assert_eq!(is_level(a.to_bits(), b.to_bits()), a == b);
            let lower = f64::from_bits(lower_of(a.to_bits(), b.to_bits()));
            let expected = a.min(b);
            assert!(lower == expected || (lower.is_nan() && expected.is_nan()));
        }
    }
}

#[test]
fn a_negative_score_or_none_never_wins() {
    let dest = test_addr(9);
    let mut router = MeshRouter::new(test_addr(0));
    router.update_route(dest, test_addr(1), 0.5f64.to_bits(), 3, at(0));
    for quality in [-1.0, f64::NAN, -f64::NAN, f64::NEG_INFINITY] {
        router.update_route(dest, test_addr(2), quality.to_bits(), 1, at(1));
        assert_eq!(router.next_hop(&dest).unwrap().next_hop, test_addr(1));
    }
    let mut peers = LinkManager::new("udp".to_string(), LinkConfig::default());
    let bad = LinkQuality { score: f64::NAN.to_bits(), ..LinkQuality::default() };
    peers.record_heartbeat(test_addr(3), bad, at(0));
    assert_eq!(peers.peers().len(), 1);
    assert!(peers.peers_above(0).is_empty());
}
