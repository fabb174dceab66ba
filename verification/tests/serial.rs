//! The serial interface.

use rsticulum::interface::serial::{
    hdlc_decode, hdlc_encode, HdlcDecoder, Polled, ReadAction, ReadEvent, ReadLoop, FLAG, HW_MTU,
};
use rsticulum::interface::{InterfaceError, SerialInterface};

#[test]
fn hdlc_encode_decode_empty() {
    let encoded = hdlc_encode(b"");
    assert_eq!(encoded, vec![FLAG, FLAG]);
    let decoded = hdlc_decode(&encoded);
    assert_eq!(decoded, Some(vec![]));
}

#[test]
fn hdlc_encode_decode_simple() {
    let data = b"hello";
    let encoded = hdlc_encode(data);
    let decoded = hdlc_decode(&encoded).unwrap();
    assert_eq!(decoded, data);
}

#[test]
fn hdlc_encode_decode_with_flag_bytes() {
    let data = vec![0x7E, 0x41, 0x7E, 0x42];
    let encoded = hdlc_encode(&data);
    // Should not contain bare 0x7E in the middle
    let middle = &encoded[1..encoded.len() - 1];
    assert!(!middle.contains(&0x7E));
    let decoded = hdlc_decode(&encoded).unwrap();
    assert_eq!(decoded, data);
}

#[test]
fn hdlc_encode_decode_with_esc_bytes() {
    let data = vec![0x7D, 0x41, 0x7D, 0x42];
    let encoded = hdlc_encode(&data);
    let decoded = hdlc_decode(&encoded).unwrap();
    assert_eq!(decoded, data);
}

#[test]
fn hdlc_encode_decode_full_byte_range() {
    let data: Vec<u8> = (0..=255).collect();
    let encoded = hdlc_encode(&data);
    let decoded = hdlc_decode(&encoded).unwrap();
    assert_eq!(decoded, data);
}

#[test]
fn hdlc_encode_decode_typical_payload() {
    // Simulate a realistic small RNS packet
    let data: Vec<u8> = (0..64).map(|i| (i * 7) as u8).collect();
    let encoded = hdlc_encode(&data);
    let decoded = hdlc_decode(&encoded).unwrap();
    assert_eq!(decoded, data);

    // Verify FLAG at start and end
    assert_eq!(encoded.first(), Some(&FLAG));
    assert_eq!(encoded.last(), Some(&FLAG));
}

#[test]
fn decoder_single_frame() {
    let mut dec = HdlcDecoder::new();
    let frame = hdlc_encode(b"test");

    let mut result = None;
    for &byte in &frame {
        if let Some(f) = dec.feed(byte) {
            result = Some(f);
        }
    }
    assert_eq!(result.unwrap(), b"test");
}

#[test]
fn decoder_multiple_frames() {
    let mut dec = HdlcDecoder::new();
    let mut frames = Vec::new();

    // Feed two frames back-to-back
    let frame1 = hdlc_encode(b"frame1");
    let frame2 = hdlc_encode(b"frame2");

    for &byte in &frame1 {
        if let Some(f) = dec.feed(byte) {
            frames.push(f);
        }
    }
    for &byte in &frame2 {
        if let Some(f) = dec.feed(byte) {
            frames.push(f);
        }
    }

    assert_eq!(frames.len(), 2);
    assert_eq!(frames[0], b"frame1");
    assert_eq!(frames[1], b"frame2");
}

#[test]
fn decoder_empty_frame_ignored() {
    // Two consecutive FLAG bytes = empty frame → should be ignored
    let mut dec = HdlcDecoder::new();
    assert!(dec.feed(FLAG).is_none()); // start frame
    assert!(dec.feed(FLAG).is_none()); // empty frame — dropped

    // Real frame
    let real = hdlc_encode(b"real");
    let mut result = None;
    for &byte in &real {
        if let Some(f) = dec.feed(byte) {
            result = Some(f);
        }
    }
    assert_eq!(result.unwrap(), b"real");
}

#[test]
fn decoder_reset() {
    let mut dec = HdlcDecoder::new();
    assert!(dec.feed(FLAG).is_none());
    assert!(dec.feed(b'A').is_none()); // partial frame
    dec.reset();
    // Should now be waiting for a fresh FLAG
    assert!(dec.feed(b'B').is_none()); // garbage — ignored pre-FLAG
    let frame = hdlc_encode(b"fresh");
    let mut result = None;
    for &byte in &frame {
        if let Some(f) = dec.feed(byte) {
            result = Some(f);
        }
    }
    assert_eq!(result.unwrap(), b"fresh");
}

#[test]
fn decoder_garbage_before_flag() {
    let mut dec = HdlcDecoder::new();
    // Junk bytes before the first FLAG should be ignored
    assert!(dec.feed(0xFF).is_none());
    assert!(dec.feed(0x00).is_none());
    let frame = hdlc_encode(b"clean");
    let mut result = None;
    for &byte in &frame {
        if let Some(f) = dec.feed(byte) {
            result = Some(f);
        }
    }
    assert_eq!(result.unwrap(), b"clean");
}

#[test]
fn hw_mtu_constant() {
    assert_eq!(HW_MTU, 564);
}

#[test]
fn serial_interface_not_online_initially() {
    let iface = SerialInterface::new("test", "/dev/fake", 9600);
    assert!(!iface.is_online());
    assert_eq!(iface.name(), "test");
    assert_eq!(iface.bitrate(), 9600);
}

#[test]
fn serial_interface_receive_when_not_online() {
    let mut iface = SerialInterface::new("test", "/dev/fake", 9600);
    let result = iface.receive(Polled::Empty);
    assert!(result.is_err());
    match result {
        Err(InterfaceError::NotOnline) => {}
        _ => panic!("expected NotOnline"),
    }
}

#[test]
fn serial_interface_send_when_not_online() {
    let iface = SerialInterface::new("test", "/dev/fake", 9600);
    let result = iface.send(b"data");
    assert!(result.is_err());
    match result {
        Err(InterfaceError::NotOnline) => {}
        _ => panic!("expected NotOnline"),
    }
}

#[test]
fn serial_interface_shutdown_when_not_online() {
    let mut iface = SerialInterface::new("test", "/dev/fake", 9600);
    let result = iface.shutdown();
    assert!(result.is_err());
    match result {
        Err(InterfaceError::NotOnline) => {}
        _ => panic!("expected NotOnline"),
    }
}

#[test]
fn serial_interface_already_online() {
    let mut iface = SerialInterface::new("test", "/dev/notexist", 9600);
    let failed = iface.start(Err("no such port".to_string()));
    assert_eq!(
        failed,
        Err(InterfaceError::Serial("failed to open /dev/notexist: no such port".to_string()))
    );
    assert!(!iface.is_online());
    assert_eq!(iface.start(Ok(())), Ok(()));
    assert!(iface.is_online());
    assert_eq!(iface.start(Ok(())), Err(InterfaceError::AlreadyOnline));
}

#[test]
fn serial_counters_follow_the_traffic() {
    let mut iface = SerialInterface::new("test", "/dev/fake", 9600);
    iface.start(Ok(())).unwrap();
    assert_eq!(iface.receive(Polled::Frame(vec![1, 2, 3])), Ok(Some(vec![1, 2, 3])));
    assert_eq!(iface.receive(Polled::Empty), Ok(None));
    assert_eq!(iface.receive(Polled::Disconnected), Err(InterfaceError::ConnectionLost));
    assert_eq!(iface.send(&[FLAG]), Ok(vec![FLAG, 0x7D, 0x5E, FLAG]));
    iface.sent(1);
    assert_eq!((iface.rxb(), iface.txb()), (3, 1));
    assert_eq!(iface.shutdown(), Ok(()));
}

#[test]
fn the_read_loop_reads_delivers_and_reconnects() {
    let mut reader = ReadLoop::new();
    assert_eq!(reader.step(ReadEvent::Byte(FLAG)), ReadAction::Read);
    assert_eq!(reader.step(ReadEvent::Byte(b'A')), ReadAction::Read);
    assert_eq!(reader.step(ReadEvent::Byte(FLAG)), ReadAction::Deliver(b"A".to_vec()));
    assert_eq!(reader.step(ReadEvent::Delivered), ReadAction::Read);
    assert_eq!(reader.step(ReadEvent::Byte(b'B')), ReadAction::Read);
    assert_eq!(reader.step(ReadEvent::TimedOut), ReadAction::Read);
    assert_eq!(reader.step(ReadEvent::Byte(FLAG)), ReadAction::Read);
    assert_eq!(reader.step(ReadEvent::ReadFailed), ReadAction::Open);
    assert_eq!(reader.step(ReadEvent::OpenFailed), ReadAction::OpenAfter(5));
    assert_eq!(reader.step(ReadEvent::Opened), ReadAction::Read);
    assert_eq!(reader.step(ReadEvent::Shutdown), ReadAction::Stop);
}

#[test]
fn a_serial_frame_behind_noise_is_read_with_its_last_byte() {
    for data in [vec![5, 0x7E], vec![]] {
        let mut stream = vec![1, 2, 0x7D];
        stream.extend(hdlc_encode(&data));
        let mut decoder = HdlcDecoder::new();
        for (i, byte) in stream.iter().enumerate() {
            let last = i + 1 == stream.len() && !data.is_empty();
            assert_eq!(decoder.feed(*byte), if last { Some(data.clone()) } else { None });
        }
    }
}
