use revtunnel::framing::FrameBuffer;
use revtunnel::packet::{DecodeError, Packet};

#[test]
fn a_new_buffer_is_empty() {
    let mut buffer = FrameBuffer::new();
    assert_eq!(buffer.len(), 0);
    assert_eq!(buffer.next_packet(), Ok(None));
}

#[test]
fn a_message_split_over_reads_comes_out_whole() {
    let packet = Packet::Success(String::from("tunnel.example.org"));
    let bytes = packet.encode();
    for cut in 0..bytes.len() {
        let mut buffer = FrameBuffer::new();
        assert!(buffer.extend(&bytes[..cut]));
        assert_eq!(buffer.next_packet(), Ok(None));
        assert_eq!(buffer.len(), cut);
        assert!(buffer.extend(&bytes[cut..]));
        assert_eq!(buffer.next_packet(), Ok(Some(packet.clone())));
        assert_eq!(buffer.len(), 0);
        assert_eq!(buffer.next_packet(), Ok(None));
    }
}

#[test]
fn a_message_fed_byte_by_byte_comes_out_once() {
    let packet = Packet::DataInit(String::from("foo"));
    let bytes = packet.encode();
    let mut buffer = FrameBuffer::new();
    for (i, byte) in bytes.iter().enumerate() {
        assert!(buffer.extend(&[*byte]));
        if i + 1 < bytes.len() {
            assert_eq!(buffer.next_packet(), Ok(None));
        }
    }
    assert_eq!(buffer.next_packet(), Ok(Some(packet)));
    assert_eq!(buffer.next_packet(), Ok(None));
}

#[test]
fn messages_in_one_read_come_out_in_order() {
    let mut buffer = FrameBuffer::new();
    let mut bytes = Packet::Init.encode();
    bytes.extend_from_slice(&Packet::Success(String::from("foo")).encode());
    bytes.extend_from_slice(&Packet::Ack.encode());
    bytes.extend_from_slice(&[3, 0]);
    assert!(buffer.extend(&bytes));
    assert_eq!(buffer.next_packet(), Ok(Some(Packet::Init)));
    assert_eq!(buffer.next_packet(), Ok(Some(Packet::Success(String::from("foo")))));
    assert_eq!(buffer.next_packet(), Ok(Some(Packet::Ack)));
    assert_eq!(buffer.next_packet(), Ok(None));
    assert_eq!(buffer.len(), 2);
}

#[test]
fn what_follows_the_cue_stays_in_the_buffer() {
    let mut buffer = FrameBuffer::new();
    let mut bytes = Packet::DataForward.encode();
    bytes.extend_from_slice(b"GET / HTTP/1.1\r\n");
    assert!(buffer.extend(&bytes));
    assert_eq!(buffer.next_packet(), Ok(Some(Packet::DataForward)));
    assert_eq!(buffer.len(), 16);
    assert_eq!(buffer.drain(), b"GET / HTTP/1.1\r\n".to_vec());
    assert_eq!(buffer.len(), 0);
    assert_eq!(buffer.drain(), Vec::<u8>::new());
}

#[test]
fn a_malformed_front_is_an_error_and_stays() {
    let mut buffer = FrameBuffer::new();
    assert!(buffer.extend(&[9, 0, 0, 0, 1]));
    assert_eq!(buffer.next_packet(), Err(DecodeError::UnknownTag(9)));
    assert_eq!(buffer.len(), 5);
    assert_eq!(buffer.next_packet(), Err(DecodeError::UnknownTag(9)));
    let mut buffer = FrameBuffer::new();
    assert!(buffer.extend(&[2, 0, 0, 0, 1, 0, 0, 0, 0, 0, 0, 0, 0xff]));
    assert_eq!(buffer.next_packet(), Err(DecodeError::InvalidUtf8));
    assert_eq!(buffer.len(), 13);
}
