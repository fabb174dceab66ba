//! HDLC frames.

use rsticulum::interface::hdlc::{ESC, ESC_MASK, FLAG, HdlcDecoder, HdlcFrame};

#[test]
fn hdlc_roundtrip_empty() {
    let encoded = HdlcFrame::encode(&[]);
    // Expected: FLAG, FLAG
    assert_eq!(encoded, vec![FLAG, FLAG]);

    let mut decoder = HdlcDecoder::new();
    let mut results = Vec::new();
    for &b in &encoded {
        if let Some(r) = decoder.feed(b) {
            results.push(r);
        }
    }
    assert_eq!(results.len(), 1);
    assert_eq!(results[0], Vec::<u8>::new());
}

#[test]
fn hdlc_roundtrip_small_payload() {
    let data: Vec<u8> = vec![0x01, 0x02, 0x03, 0x04, 0x05];
    let encoded = HdlcFrame::encode(&data);

    let mut decoder = HdlcDecoder::new();
    let mut results = Vec::new();
    for &b in &encoded {
        if let Some(r) = decoder.feed(b) {
            results.push(r);
        }
    }
    assert_eq!(results.len(), 1);
    assert_eq!(results[0], data);
}

#[test]
fn hdlc_roundtrip_large_payload() {
    let data: Vec<u8> = (0..255u8).collect();
    let encoded = HdlcFrame::encode(&data);

    let mut decoder = HdlcDecoder::new();
    let mut results = Vec::new();
    for &b in &encoded {
        if let Some(r) = decoder.feed(b) {
            results.push(r);
        }
    }
    assert_eq!(results.len(), 1);
    assert_eq!(results[0], data);
}

#[test]
fn escape_flag_in_payload() {
    // FLAG (0x7E) should become ESC+(FLAG^MASK) = 0x7D 0x5E
    let data = vec![0x41, FLAG, 0x42];
    let encoded = HdlcFrame::encode(&data);

    assert_eq!(encoded, vec![FLAG, 0x41, ESC, FLAG ^ ESC_MASK, 0x42, FLAG]);
    assert_eq!(encoded[2], ESC); // 0x7D — first byte of escape pair
    assert_eq!(encoded[3], 0x5E); // 0x7E ^ 0x20 = 0x5E — second byte

    let mut decoder = HdlcDecoder::new();
    let mut results = Vec::new();
    for &b in &encoded {
        if let Some(r) = decoder.feed(b) {
            results.push(r);
        }
    }
    assert_eq!(results.len(), 1);
    assert_eq!(results[0], data);
}

#[test]
fn escape_esc_in_payload() {
    // ESC (0x7D) should become ESC+(ESC^MASK) = 0x7D 0x5D
    let data = vec![0x41, ESC, 0x42];
    let encoded = HdlcFrame::encode(&data);

    assert_eq!(encoded, vec![FLAG, 0x41, ESC, ESC ^ ESC_MASK, 0x42, FLAG]);
    assert_eq!(encoded[2], ESC); // 0x7D — first byte of escape pair
    assert_eq!(encoded[3], 0x5D); // 0x7D ^ 0x20 = 0x5D — second byte

    let mut decoder = HdlcDecoder::new();
    let mut results = Vec::new();
    for &b in &encoded {
        if let Some(r) = decoder.feed(b) {
            results.push(r);
        }
    }
    assert_eq!(results.len(), 1);
    assert_eq!(results[0], data);
}

#[test]
fn hdlc_all_escape_bytes_payload() {
    // Payload of ONLY bytes that need escaping
    let data = vec![FLAG, ESC, FLAG, ESC];
    let encoded = HdlcFrame::encode(&data);

    let mut decoder = HdlcDecoder::new();
    let mut results = Vec::new();
    for &b in &encoded {
        if let Some(r) = decoder.feed(b) {
            results.push(r);
        }
    }
    assert_eq!(results.len(), 1);
    assert_eq!(results[0], data);
}

#[test]
fn hdlc_partial_frame_across_feeds() {
    let data = vec![0x10, 0x20, 0x30, 0x40, 0x50];
    let encoded = HdlcFrame::encode(&data);

    let mut decoder = HdlcDecoder::new();
    let mut results = Vec::new();

    for (i, &b) in encoded.iter().enumerate() {
        let is_last = i == encoded.len() - 1;
        let result = decoder.feed(b);
        if is_last {
            assert!(result.is_some(), "should return frame on last byte {}", i);
            results.push(result.unwrap());
        } else {
            assert!(result.is_none(), "should not return frame at byte {}", i);
        }
    }
    assert_eq!(results.len(), 1);
    assert_eq!(results[0], data);
}

#[test]
fn hdlc_multiple_consecutive_frames() {
    let data1 = vec![0x01, 0x02, 0x03];
    let data2 = vec![0xAA, 0xBB, 0xCC];

    let mut combined = Vec::new();
    combined.push(FLAG);
    combined.extend(HdlcFrame::escape(&data1));
    // Shared FLAG — closes frame1, opens frame2
    combined.push(FLAG);
    combined.extend(HdlcFrame::escape(&data2));
    combined.push(FLAG);

    let mut decoder = HdlcDecoder::new();
    let mut results = Vec::new();
    for &b in &combined {
        if let Some(r) = decoder.feed(b) {
            results.push(r);
        }
    }
    assert_eq!(results.len(), 2);
    assert_eq!(results[0], data1);
    assert_eq!(results[1], data2);
}

#[test]
fn hdlc_decoder_reset_during_partial_frame() {
    let data = vec![0x01, 0x02, 0x03];
    let encoded = HdlcFrame::encode(&data);

    let mut decoder = HdlcDecoder::new();

    // Feed only first half of frame
    for &b in &encoded[..3] {
        assert!(decoder.feed(b).is_none());
    }

    // Reset — ensure state is cleared
    decoder.reset();
    assert!(!decoder.in_frame);
    assert!(!decoder.escape);
    assert!(decoder.data_buffer.is_empty());

    // Now feed a complete frame — should work
    let mut results = Vec::new();
    for &b in &HdlcFrame::encode(&data) {
        if let Some(r) = decoder.feed(b) {
            results.push(r);
        }
    }
    assert_eq!(results.len(), 1);
    assert_eq!(results[0], data);
}

#[test]
fn leading_garbage_before_flag() {
    // Bytes before opening FLAG should be ignored
    let data = vec![0x01, 0x02, 0x03];
    let encoded = HdlcFrame::encode(&data);

    let mut stream = vec![0xFF, 0xFE, 0xFD]; // garbage
    stream.extend(encoded);

    let mut decoder = HdlcDecoder::new();
    let mut results = Vec::new();
    for &b in &stream {
        if let Some(r) = decoder.feed(b) {
            results.push(r);
        }
    }
    assert_eq!(results.len(), 1);
    assert_eq!(results[0], data);
}

#[test]
fn hdlc_single_byte_frame() {
    let data = vec![0x42];
    let encoded = HdlcFrame::encode(&data);

    let mut decoder = HdlcDecoder::new();
    let mut results = Vec::new();
    for &b in &encoded {
        if let Some(r) = decoder.feed(b) {
            results.push(r);
        }
    }
    assert_eq!(results.len(), 1);
    assert_eq!(results[0], data);
}

#[test]
fn back_to_back_flag_sharing() {
    // When frames are back-to-back, the closing FLAG of one is the
    // opening FLAG of the next. This is standard HDLC behavior.
    let data1 = vec![0x01, 0x02];
    let data2 = vec![0x03, 0x04];

    let mut stream = Vec::new();
    stream.push(FLAG);
    stream.extend(HdlcFrame::escape(&data1));
    // Shared FLAG — closes frame 1 and opens frame 2
    stream.push(FLAG);
    stream.extend(HdlcFrame::escape(&data2));
    stream.push(FLAG);

    let mut decoder = HdlcDecoder::new();
    let mut results = Vec::new();
    for &b in &stream {
        if let Some(r) = decoder.feed(b) {
            results.push(r);
        }
    }
    assert_eq!(results.len(), 2);
    assert_eq!(results[0], data1);
    assert_eq!(results[1], data2);
}

#[test]
fn empty_frame_flagged() {
    // Empty frame between two FLAGs
    let stream = vec![FLAG, FLAG];
    let mut decoder = HdlcDecoder::new();
    let mut results = Vec::new();
    for &b in &stream {
        if let Some(r) = decoder.feed(b) {
            results.push(r);
        }
    }
    assert_eq!(results.len(), 1);
    assert_eq!(results[0], Vec::<u8>::new());
}

#[test]
fn a_frame_behind_noise_is_read_with_its_last_byte() {
    let data = [1, 0x7E, 2, 0x7D, 3];
    let mut stream = vec![9, 0x7D, 8];
    stream.extend(HdlcFrame::encode(&data));
    let mut decoder = HdlcDecoder::new();
    for (i, byte) in stream.iter().enumerate() {
        let expected = if i + 1 == stream.len() { Some(data.to_vec()) } else { None };
        assert_eq!(decoder.feed(*byte), expected);
    }
}
