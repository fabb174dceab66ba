//! KISS frames.

use rsticulum::interface::kiss::{CMD_DATA, CMD_P, CMD_RETURN, CMD_SLOTTIME, CMD_TXDELAY, CMD_TXTAIL, FEND, FESC, KissDecoder, KissFrame, TFEND, TFESC};

#[test]
fn kiss_roundtrip_empty() {
    let encoded = KissFrame::encode(&[]);
    // Expected: FEND, CMD_DATA, FEND
    assert_eq!(encoded, vec![FEND, CMD_DATA, FEND]);

    let mut decoder = KissDecoder::new();
    let mut results = Vec::new();
    for &b in &encoded {
        if let Some(r) = decoder.feed(b) {
            results.push(r);
        }
    }
    assert_eq!(results.len(), 1);
    assert_eq!(results[0].command, CMD_DATA);
    assert_eq!(results[0].data, Vec::<u8>::new());
}

#[test]
fn kiss_roundtrip_small_payload() {
    let data: Vec<u8> = vec![0x01, 0x02, 0x03, 0x04, 0x05];
    let encoded = KissFrame::encode(&data);

    let mut decoder = KissDecoder::new();
    let mut results = Vec::new();
    for &b in &encoded {
        if let Some(r) = decoder.feed(b) {
            results.push(r);
        }
    }
    assert_eq!(results.len(), 1);
    assert_eq!(results[0].command, CMD_DATA);
    assert_eq!(results[0].data, data);
}

#[test]
fn kiss_roundtrip_large_payload() {
    let data: Vec<u8> = (0..255u8).collect();
    let encoded = KissFrame::encode(&data);

    let mut decoder = KissDecoder::new();
    let mut results = Vec::new();
    for &b in &encoded {
        if let Some(r) = decoder.feed(b) {
            results.push(r);
        }
    }
    assert_eq!(results.len(), 1);
    assert_eq!(results[0].command, CMD_DATA);
    assert_eq!(results[0].data, data);
}

#[test]
fn escape_fesc_in_payload() {
    // Payload containing FESC (0xDB) should be escaped as FESC+TFESC
    let data = vec![0x41, FESC, 0x42];
    let encoded = KissFrame::encode(&data);

    // Expected: FEND, CMD_DATA, 0x41, FESC, TFESC, 0x42, FEND
    assert_eq!(encoded, vec![FEND, CMD_DATA, 0x41, FESC, TFESC, 0x42, FEND]);

    let mut decoder = KissDecoder::new();
    let mut results = Vec::new();
    for &b in &encoded {
        if let Some(r) = decoder.feed(b) {
            results.push(r);
        }
    }
    assert_eq!(results.len(), 1);
    assert_eq!(results[0].data, data);
}

#[test]
fn escape_fend_in_payload() {
    // Payload containing FEND (0xC0) should be escaped as FESC+TFEND
    let data = vec![0x41, FEND, 0x42];
    let encoded = KissFrame::encode(&data);

    assert_eq!(encoded, vec![FEND, CMD_DATA, 0x41, FESC, TFEND, 0x42, FEND]);

    let mut decoder = KissDecoder::new();
    let mut results = Vec::new();
    for &b in &encoded {
        if let Some(r) = decoder.feed(b) {
            results.push(r);
        }
    }
    assert_eq!(results.len(), 1);
    assert_eq!(results[0].data, data);
}

#[test]
fn kiss_all_escape_bytes_payload() {
    // Payload of ONLY escape-requiring bytes
    let data = vec![FEND, FESC, FEND, FESC];
    let encoded = KissFrame::encode(&data);

    let mut decoder = KissDecoder::new();
    let mut results = Vec::new();
    for &b in &encoded {
        if let Some(r) = decoder.feed(b) {
            results.push(r);
        }
    }
    assert_eq!(results.len(), 1);
    assert_eq!(results[0].data, data);
}

#[test]
fn kiss_partial_frame_across_feeds() {
    let data = vec![0x10, 0x20, 0x30, 0x40, 0x50];
    let encoded = KissFrame::encode(&data);

    let mut decoder = KissDecoder::new();
    let mut results = Vec::new();

    // Feed one byte at a time, verify no premature result
    for (i, &b) in encoded.iter().enumerate() {
        let is_last = i == encoded.len() - 1;
        let result = decoder.feed(b);
        if is_last {
            assert!(result.is_some(), "should return frame on last byte");
            results.push(result.unwrap());
        } else {
            assert!(result.is_none(), "should not return frame at byte {}", i);
        }
    }
    assert_eq!(results.len(), 1);
    assert_eq!(results[0].command, CMD_DATA);
    assert_eq!(results[0].data, data);
}

#[test]
fn kiss_multiple_consecutive_frames() {
    let data1 = vec![0x01, 0x02, 0x03];
    let data2 = vec![0xAA, 0xBB, 0xCC];

    let mut combined = KissFrame::encode(&data1);
    combined.extend(KissFrame::encode(&data2));

    let mut decoder = KissDecoder::new();
    let mut results = Vec::new();
    for &b in &combined {
        if let Some(r) = decoder.feed(b) {
            results.push(r);
        }
    }
    assert_eq!(results.len(), 2);
    assert_eq!(results[0].data, data1);
    assert_eq!(results[1].data, data2);
}

#[test]
fn kiss_decoder_reset_during_partial_frame() {
    let data = vec![0x01, 0x02, 0x03];
    let encoded = KissFrame::encode(&data);

    let mut decoder = KissDecoder::new();

    // Feed only first half of frame
    for &b in &encoded[..3] {
        assert!(decoder.feed(b).is_none());
    }

    // Reset
    decoder.reset();
    assert!(!decoder.in_frame);
    assert!(!decoder.escape);
    assert!(decoder.data_buffer.is_empty());
    assert!(decoder.command.is_none());

    // Now feed a complete frame — should work
    let mut results = Vec::new();
    for &b in &KissFrame::encode(&data) {
        if let Some(r) = decoder.feed(b) {
            results.push(r);
        }
    }
    assert_eq!(results.len(), 1);
    assert_eq!(results[0].data, data);
}

#[test]
fn encode_cmd_txdelay() {
    let encoded = KissFrame::encode_cmd_value(CMD_TXDELAY, 50);
    assert_eq!(encoded, vec![FEND, CMD_TXDELAY, 50, FEND]);

    let mut decoder = KissDecoder::new();
    let mut results = Vec::new();
    for &b in &encoded {
        if let Some(r) = decoder.feed(b) {
            results.push(r);
        }
    }
    assert_eq!(results.len(), 1);
    assert_eq!(results[0].command, CMD_TXDELAY);
    assert_eq!(results[0].data, vec![50]);
}

#[test]
fn encode_cmd_with_data() {
    let data = vec![0x01, 0x02, 0x03];
    let encoded = KissFrame::encode_cmd(CMD_RETURN, &data);

    let mut decoder = KissDecoder::new();
    let mut results = Vec::new();
    for &b in &encoded {
        if let Some(r) = decoder.feed(b) {
            results.push(r);
        }
    }
    assert_eq!(results.len(), 1);
    assert_eq!(results[0].command, CMD_RETURN);
    assert_eq!(results[0].data, data);
}

#[test]
fn encode_cmd_values_all() {
    let cmds = [CMD_TXDELAY, CMD_P, CMD_SLOTTIME, CMD_TXTAIL];
    for &cmd in &cmds {
        let encoded = KissFrame::encode_cmd_value(cmd, 0x42);
        assert_eq!(&encoded[0..2], &[FEND, cmd]);

        let mut decoder = KissDecoder::new();
        let mut results = Vec::new();
        for &b in &encoded {
            if let Some(r) = decoder.feed(b) {
                results.push(r);
            }
        }
        assert_eq!(results[0].command, cmd);
        assert_eq!(results[0].data, vec![0x42]);
    }
}

#[test]
fn leading_garbage_before_fend() {
    // Bytes before opening FEND should be ignored
    let data = vec![0x01, 0x02, 0x03];
    let encoded = KissFrame::encode(&data);

    let mut stream = vec![0xFF, 0xFE, 0xFD]; // garbage
    stream.extend(encoded);

    let mut decoder = KissDecoder::new();
    let mut results = Vec::new();
    for &b in &stream {
        if let Some(r) = decoder.feed(b) {
            results.push(r);
        }
    }
    assert_eq!(results.len(), 1);
    assert_eq!(results[0].data, data);
}

#[test]
fn kiss_single_byte_frame() {
    let data = vec![0x42];
    let encoded = KissFrame::encode(&data);

    let mut decoder = KissDecoder::new();
    let mut results = Vec::new();
    for &b in &encoded {
        if let Some(r) = decoder.feed(b) {
            results.push(r);
        }
    }
    assert_eq!(results.len(), 1);
    assert_eq!(results[0].data, data);
}

#[test]
fn two_frames_behind_noise_are_read_with_their_last_bytes() {
    let first = KissFrame::encode_cmd(CMD_P, &[FEND, 1]);
    let second = KissFrame::encode(&[FESC]);
    let mut stream = vec![7, FESC];
    stream.extend(&first);
    stream.extend(&second);
    let mut decoder = KissDecoder::new();
    let mut frames = Vec::new();
    for (i, byte) in stream.iter().enumerate() {
        if let Some(f) = decoder.feed(*byte) {
            frames.push((i, f.command, f.data));
        }
    }
    let end = 2 + first.len() - 1;
    assert_eq!(
        frames,
        vec![(end, CMD_P, vec![FEND, 1]), (stream.len() - 1, CMD_DATA, vec![FESC])]
    );
}
