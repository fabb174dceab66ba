//! Resources.

use rsticulum::transport::TransportError;
use rsticulum::transport::resource::{DEFAULT_SEGMENT_SIZE, Resource, ResourceConfig, ResourceState, Segment, SegmentTracker};

#[test]
fn segment_checksum_verification() {
    let data = b"hello segment".to_vec();
    let seg = Segment::new(b"hash".to_vec(), 0, 1, data);
    assert!(seg.verify_checksum());
}

#[test]
fn segment_tampered_data_fails_checksum() {
    let data = b"hello segment".to_vec();
    let mut seg = Segment::new(b"hash".to_vec(), 0, 1, data);
    seg.data[0] ^= 0xFF;
    assert!(!seg.verify_checksum());
}

#[test]
fn segment_tracker_add_and_assemble() {
    let hash = b"resource-hash-001".to_vec();
    let mut tracker = SegmentTracker::new(hash.clone(), 3);

    let s0 = Segment::new(hash.clone(), 0, 3, b"AAA".to_vec());
    let s1 = Segment::new(hash.clone(), 1, 3, b"BBB".to_vec());
    let s2 = Segment::new(hash.clone(), 2, 3, b"CCC".to_vec());

    assert!(!tracker.add_segment(s0).unwrap());
    assert_eq!(tracker.received_count(), 1);
    assert_eq!(tracker.received_count() as f64 / tracker.total() as f64, 1.0 / 3.0);

    assert!(!tracker.add_segment(s2).unwrap()); // out of order
    assert_eq!(tracker.received_count(), 2);

    assert!(tracker.add_segment(s1).unwrap()); // completes
    assert!(tracker.is_complete());

    let assembled = tracker.assemble().unwrap();
    assert_eq!(assembled, b"AAABBBCCC");
}

#[test]
fn segment_tracker_rejects_wrong_hash() {
    let mut tracker = SegmentTracker::new(b"hash-a".to_vec(), 1);
    let seg = Segment::new(b"hash-b".to_vec(), 0, 1, b"data".to_vec());
    let err = tracker.add_segment(seg).unwrap_err();
    assert!(matches!(err, TransportError::UnknownResource(_)));
}

#[test]
fn segment_tracker_rejects_duplicate() {
    let hash = b"dup-hash".to_vec();
    let mut tracker = SegmentTracker::new(hash.clone(), 1);
    let seg = Segment::new(hash.clone(), 0, 1, b"data".to_vec());
    tracker.add_segment(seg.clone()).unwrap();
    let err = tracker.add_segment(seg).unwrap_err();
    assert!(matches!(err, TransportError::Other(_)));
}

#[test]
fn segment_tracker_missing_indices() {
    let hash = b"missing-test".to_vec();
    let mut tracker = SegmentTracker::new(hash.clone(), 5);
    tracker
        .add_segment(Segment::new(hash.clone(), 0, 5, b"A".to_vec()))
        .unwrap();
    tracker
        .add_segment(Segment::new(hash.clone(), 2, 5, b"C".to_vec()))
        .unwrap();
    tracker
        .add_segment(Segment::new(hash.clone(), 4, 5, b"E".to_vec()))
        .unwrap();

    let missing = tracker.missing_indices();
    assert_eq!(missing, vec![1, 3]);
}

#[test]
fn resource_new_for_sending_segments_data() {
    let data = vec![0x42; 3000];
    let config = ResourceConfig {
        segment_size: 1024,
        ..Default::default()
    };
    let resource = Resource::new_for_sending(data.clone(), config);

    assert_eq!(resource.total_size(), 3000);
    assert_eq!(resource.segment_count(), 3); // ceil(3000/1024) = 3
    assert!(resource.data().is_some());

    // Verify each segment
    for seg in resource.all_segments() {
        assert!(seg.verify_checksum());
        assert_eq!(seg.total, 3);
    }
}

#[test]
fn resource_receive_and_assemble() {
    let data = vec![0xAB; 2500];
    let config = ResourceConfig::default();
    let send_resource = Resource::new_for_sending(data.clone(), config.clone());

    let hash = send_resource.hash().to_vec();
    let total = send_resource.total_segments();
    let total_size = send_resource.total_size();

    let mut recv_resource = Resource::new_for_receiving(hash, total_size, total, config);

    for seg in send_resource.all_segments() {
        let complete = recv_resource.receive_segment(seg.clone()).unwrap();
        if seg.index + 1 == total {
            assert!(complete);
        } else {
            assert!(!complete);
        }
    }

    assert!(recv_resource.is_complete());
    assert_eq!(recv_resource.data().unwrap(), data.as_slice());
}

#[test]
fn resource_segment_count_small_data() {
    let data = b"tiny".to_vec();
    let resource = Resource::new_for_sending(data, ResourceConfig::default());
    assert_eq!(resource.segment_count(), 1);
}

#[test]
fn resource_state_transitions() {
    let data = vec![0u8; 100];
    let config = ResourceConfig::default();
    let resource = Resource::new_for_sending(data, config);
    assert_eq!(resource.state(), ResourceState::Pending);
    assert!(!resource.is_complete());
}

#[test]
fn resource_config_builder() {
    let config = ResourceConfig::builder()
        .segment_size(2048)
        .max_concurrent(8)
        .build();
    assert_eq!(config.segment_size, 2048);
    assert_eq!(config.max_concurrent, 8);
}

#[test]
fn resource_config_defaults() {
    let config = ResourceConfig::default();
    assert_eq!(config.segment_size, DEFAULT_SEGMENT_SIZE);
    assert_eq!(config.max_concurrent, 16);
}

#[test]
fn segment_tracker_not_complete_until_all_received() {
    let hash = b"partial".to_vec();
    let mut tracker = SegmentTracker::new(hash.clone(), 3);
    tracker
        .add_segment(Segment::new(hash.clone(), 0, 3, b"x".to_vec()))
        .unwrap();
    assert!(!tracker.is_complete());
    assert_eq!(tracker.missing_count(), 2);
}

#[test]
fn a_complete_resource_stays_complete() {
    let data: Vec<u8> = (0..50u8).collect();
    let config = ResourceConfig { segment_size: 8, max_concurrent: 1 };
    let sent = Resource::new_for_sending(data.clone(), config);
    let mut got = Resource::new_for_receiving(
        sent.hash().to_vec(),
        sent.total_size(),
        sent.total_segments(),
        config,
    );
    let order = [3, 0, 6, 5, 1, 4, 2];
    for (k, i) in order.iter().enumerate() {
        assert!(got.data().is_none());
        let last = k + 1 == order.len();
        assert_eq!(got.receive_segment(sent.all_segments()[*i].clone()), Ok(last));
    }
    assert_eq!(got.data(), Some(&data[..]));
    assert!(got.missing_segments().is_empty());
    assert!(got.receive_segment(sent.all_segments()[3].clone()).is_err());
    assert!(got.is_complete());
    assert_eq!(got.state(), ResourceState::Complete);
    assert_eq!(got.data(), Some(&data[..]));
}
