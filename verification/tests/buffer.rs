//! Streams over a channel.

use rsticulum::buffer::{Buffer, BufferError, StreamDataMessage};
use rsticulum::channel::{Channel, SystemMessageType};
use rsticulum::destination::Destination;
use rsticulum::identity::Keys;
use rsticulum::transport::Link;

#[test]
fn stream_data_message_roundtrip() {
    let msg = StreamDataMessage {
        stream_id: 42,
        data: b"hello stream".to_vec(),
        eof: false,
        compressed: false,
    };

    let packed = msg.pack();
    let unpacked = StreamDataMessage::unpack(&packed).unwrap();

    assert_eq!(unpacked.stream_id, 42);
    assert_eq!(unpacked.data, b"hello stream");
    assert!(!unpacked.eof);
    assert!(!unpacked.compressed);
}

#[test]
fn stream_data_message_eof() {
    let msg = StreamDataMessage { stream_id: 1, data: vec![], eof: true, compressed: false };

    let packed = msg.pack();
    assert_eq!(packed.len(), 2);

    let unpacked = StreamDataMessage::unpack(&packed).unwrap();
    assert!(unpacked.eof);
    assert_eq!(unpacked.stream_id, 1);
}

#[test]
fn stream_data_message_large_id() {
    let msg = StreamDataMessage {
        stream_id: 16383,
        data: vec![0xAB],
        eof: false,
        compressed: false,
    };

    let packed = msg.pack();
    let unpacked = StreamDataMessage::unpack(&packed).unwrap();
    assert_eq!(unpacked.stream_id, 16383);
}

#[test]
fn stream_data_message_too_short() {
    let err = StreamDataMessage::unpack(&[0x00]).unwrap_err();
    assert!(matches!(err, BufferError::InvalidFormat(..)));
}

#[test]
fn max_data_len_computation() {
    let mdu = 500;
    let max = StreamDataMessage::max_data_len(mdu);
    assert_eq!(max, 498);

    let mdu_small = 1;
    let max_small = StreamDataMessage::max_data_len(mdu_small);
    assert_eq!(max_small, 0);
}

#[test]
fn stream_header_bits() {
    let msg = StreamDataMessage { stream_id: 0x0102, data: vec![7], eof: true, compressed: true };
    assert_eq!(msg.pack(), vec![0xC1, 0x02, 7]);
}

fn looped_channel() -> Channel {
    let alice = Destination::singleton(Keys::generate(), "alice", vec![]);
    let bob = Destination::singleton(Keys::generate(), "bob", vec![]);
    let mut link = Link::new(alice, *bob.hash());
    let pkt = link.establish().unwrap();
    link.complete_handshake(&pkt.data).unwrap();
    let mut channel = Channel::new(link);
    channel.register_handler(SystemMessageType::SMT_STREAM_DATA);
    channel
}

#[test]
fn a_reader_takes_what_belongs_to_its_stream() {
    let mut reader = Buffer::create_reader(looped_channel(), 5);
    assert_eq!(reader.stream_id(), 5);
    let mine = StreamDataMessage { stream_id: 5, data: b"abcdef".to_vec(), eof: false, compressed: false };
    let other = StreamDataMessage { stream_id: 6, data: b"xyz".to_vec(), eof: false, compressed: false };
    assert!(reader.accept(&mine.pack()));
    assert!(!reader.accept(&other.pack()));
    assert_eq!(reader.read(4), Ok(b"abcd".to_vec()));
    assert!(!reader.is_closed());
    let last = StreamDataMessage { stream_id: 5, data: vec![], eof: true, compressed: false };
    assert!(reader.accept(&last.pack()));
    assert_eq!(reader.read(4), Ok(b"ef".to_vec()));
    assert!(reader.is_closed());
    assert_eq!(reader.read(4), Err(BufferError::StreamClosed));
}

#[test]
fn a_writer_sends_chunks_on_its_channel() {
    let mut writer = Buffer::create_writer(looped_channel(), 9);
    let n = writer.write(b"some bytes").unwrap();
    assert_eq!(n, 10);
    writer.close().unwrap();
    assert_eq!(writer.take_outbound().len(), 2);
    assert!(writer.take_outbound().is_empty());
}

#[test]
fn what_is_written_in_pieces_is_read() {
    let mut writer = Buffer::create_writer(looped_channel(), 9);
    let data: Vec<u8> = (0..2000u32).map(|i| (i % 251) as u8).collect();
    assert_eq!(writer.write(&data), Ok(2000));
    writer.close().unwrap();
    let packets = writer.take_outbound();
    assert_eq!(packets.len(), 2000usize.div_ceil(writer.max_data_len()) + 1);
    let mut reader = Buffer::create_reader(writer.channel, 9);
    for packet in &packets {
        assert_eq!(reader.deliver(packet), Ok(true));
    }
    assert_eq!(reader.read(4000), Ok(data));
    assert_eq!(reader.read(4000), Err(BufferError::StreamClosed));
}

#[test]
fn nothing_is_written_to_a_link_that_is_not_established() {
    let alice = Destination::singleton(Keys::generate(), "alice", vec![]);
    let bob = Destination::singleton(Keys::generate(), "bob", vec![]);
    let mut writer = Buffer::create_writer(Channel::new(Link::new(alice, *bob.hash())), 1);
    assert!(matches!(writer.write(b"x"), Err(BufferError::Channel(_))));
    assert!(writer.take_outbound().is_empty());
}

#[test]
fn delivered_pieces_are_read_in_order() {
    let mut sender = looped_channel();
    let mut packets = Vec::new();
    for (data, eof) in [(&b"one "[..], false), (&b"two "[..], false), (&b"three"[..], true)] {
        let piece = StreamDataMessage { stream_id: 3, data: data.to_vec(), eof, compressed: false };
        packets.push(sender.send_typed(SystemMessageType::SMT_STREAM_DATA, piece.pack()).unwrap());
    }
    let elsewhere = StreamDataMessage { stream_id: 4, data: vec![1], eof: false, compressed: false };
    packets.push(sender.send_typed(SystemMessageType::SMT_STREAM_DATA, elsewhere.pack()).unwrap());
    let mut reader = Buffer::create_reader(sender, 3);
    assert_eq!(reader.read(8), Ok(vec![]));
    assert_eq!(reader.deliver(&packets[0]), Ok(true));
    assert_eq!(reader.deliver(&packets[3]), Ok(false));
    assert_eq!(reader.deliver(&packets[1]), Ok(true));
    assert_eq!(reader.deliver(&packets[2]), Ok(true));
    assert_eq!(reader.read(64), Ok(b"one two three".to_vec()));
    assert!(reader.is_closed());
    assert_eq!(reader.read(64), Err(BufferError::StreamClosed));
}
