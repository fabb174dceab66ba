//! Ordered messages on a link.

use rsticulum::channel::{
    Channel, ChannelEnvelope, ChannelError, EnvelopeError, SystemMessageType,
};
use rsticulum::destination::Destination;
use rsticulum::identity::Keys;
use rsticulum::transport::Link;

fn make_keys(name: &str) -> (Keys, Destination) {
    let keys = Keys::generate();
    let dest = Destination::singleton(keys.clone(), name, vec![]);
    (keys, dest)
}

fn make_established_channel() -> Channel {
    let (_, alice) = make_keys("alice");
    let (_, bob) = make_keys("bob");
    let bob_addr = *bob.hash();

    let mut link = Link::new(alice, bob_addr);
    let pkt = link.establish().unwrap();
    link.complete_handshake(&pkt.data).unwrap();

    Channel::new(link)
}

#[test]
fn channel_new_is_not_ready() {
    let (_, alice) = make_keys("alice");
    let (_, bob) = make_keys("bob");
    let link = Link::new(alice, *bob.hash());
    let channel = Channel::new(link);
    assert!(!channel.is_ready());
}

#[test]
fn channel_send_recv_roundtrip() {
    let mut channel = make_established_channel();

    let pkt = channel.send(b"hello channel".to_vec()).unwrap();
    assert!(channel.outgoing_seq > 0);

    channel.deliver(&pkt).unwrap();

    let msg = channel.recv().unwrap();
    assert_eq!(msg, b"hello channel");
}

#[test]
fn channel_in_order_sequencing() {
    let mut channel = make_established_channel();

    let pkts: Vec<_> = (0..5)
        .map(|i| channel.send(format!("msg-{i}").into_bytes()).unwrap())
        .collect();

    for pkt in &pkts {
        channel.deliver(pkt).unwrap();
    }

    for i in 0..5 {
        let msg = channel.recv().unwrap();
        assert_eq!(msg, format!("msg-{i}").as_bytes());
    }
}

#[test]
fn channel_out_of_order_reordering() {
    let mut channel = make_established_channel();

    let pkt0 = channel.send(b"msg-0".to_vec()).unwrap();
    let pkt1 = channel.send(b"msg-1".to_vec()).unwrap();
    let pkt2 = channel.send(b"msg-2".to_vec()).unwrap();

    channel.deliver(&pkt2).unwrap();
    assert_eq!(channel.pending(), 0);

    channel.deliver(&pkt0).unwrap();
    assert_eq!(channel.pending(), 1);

    channel.deliver(&pkt1).unwrap();
    assert_eq!(channel.pending(), 3);

    assert_eq!(channel.recv().unwrap(), b"msg-0");
    assert_eq!(channel.recv().unwrap(), b"msg-1");
    assert_eq!(channel.recv().unwrap(), b"msg-2");
}

#[test]
fn channel_message_too_large() {
    let mut channel = make_established_channel();
    let big = vec![0u8; channel.mdu() + 1];
    let err = channel.send(big).unwrap_err();
    assert!(matches!(err, ChannelError::MessageTooLarge(..)));
}

#[test]
fn channel_send_when_link_not_established() {
    let (_, alice) = make_keys("alice");
    let (_, bob) = make_keys("bob");
    let link = Link::new(alice, *bob.hash());
    let mut channel = Channel::new(link);
    let err = channel.send(b"test".to_vec()).unwrap_err();
    assert!(matches!(err, ChannelError::Transport(..)));
}

#[test]
fn envelope_roundtrip() {
    let env = ChannelEnvelope {
        message_type: SystemMessageType::SMT_CHANNEL_DATA.code(),
        sequence_number: 42,
        payload: b"test-payload".to_vec(),
    };

    let packed = env.pack();
    let unpacked = ChannelEnvelope::unpack(&packed).unwrap();

    assert_eq!(unpacked.message_type, env.message_type);
    assert_eq!(unpacked.sequence_number, env.sequence_number);
    assert_eq!(unpacked.payload, env.payload);
}

#[test]
fn envelope_too_short() {
    let err = ChannelEnvelope::unpack(&[0; 3]).unwrap_err();
    assert!(matches!(err, EnvelopeError::TooShort(3)));
}

#[test]
fn envelope_stream_data_type() {
    let env = ChannelEnvelope {
        message_type: SystemMessageType::SMT_STREAM_DATA.code(),
        sequence_number: 1,
        payload: vec![0xAA, 0xBB],
    };

    let packed = env.pack();
    assert_eq!(packed.len(), 8);
    assert_eq!(packed[0..2], [0xFF, 0x00]);
}

#[test]
fn a_registered_type_goes_to_its_handler() {
    let mut channel = make_established_channel();
    channel.register_handler(SystemMessageType::SMT_STREAM_DATA);
    let pkt = channel.send_typed(SystemMessageType::SMT_STREAM_DATA, b"stream".to_vec()).unwrap();
    channel.deliver(&pkt).unwrap();
    assert_eq!(channel.recv(), None);
    assert_eq!(channel.next_dispatch(), Some((0xFF00, b"stream".to_vec())));
    assert_eq!(channel.next_dispatch(), None);
}

#[test]
fn a_message_is_delivered_once() {
    let mut channel = make_established_channel();
    let pkt = channel.send(b"once".to_vec()).unwrap();
    channel.deliver(&pkt).unwrap();
    channel.deliver(&pkt).unwrap();
    assert_eq!(channel.pending(), 1);
}

#[test]
fn any_order_and_repeats_are_put_in_order() {
    let mut channel = make_established_channel();
    let sent: Vec<Vec<u8>> = (0..40u8).map(|i| vec![i, i + 1]).collect();
    let packets: Vec<_> = sent.iter().map(|m| channel.send(m.clone()).unwrap()).collect();
    let mut delivered = [false; 40];
    for k in 0..40 {
        let i = (k * 7 + 3) % 40;
        for _ in 0..2 {
            assert_eq!(channel.deliver(&packets[i]), Ok(()));
            delivered[i] = true;
            let ready = delivered.iter().position(|d| !d).unwrap_or(40);
            assert_eq!(channel.pending(), ready);
        }
    }
    for m in sent {
        assert_eq!(channel.recv(), Some(m));
    }
    assert_eq!(channel.recv(), None);
}
