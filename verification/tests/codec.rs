use revtunnel::packet::{DecodeError, Packet};

/// A stand-in with the layout that serde derives for the message enum, so that
/// the library's bytes can be held against what `bincode` writes for an enum.
enum Mirror {
    Ack,
    Init,
    Success(String),
    DataInit(String),
    DataForward,
}

impl serde::Serialize for Mirror {
    fn serialize<S: serde::Serializer>(&self, serializer: S) -> Result<S::Ok, S::Error> {
        match self {
            Mirror::Ack => serializer.serialize_unit_variant("Packet", 0, "Ack"),
            Mirror::Init => serializer.serialize_unit_variant("Packet", 1, "Init"),
            Mirror::Success(domain) => {
                serializer.serialize_newtype_variant("Packet", 2, "Success", domain)
            }
            Mirror::DataInit(domain) => {
                serializer.serialize_newtype_variant("Packet", 3, "DataInit", domain)
            }
            Mirror::DataForward => serializer.serialize_unit_variant("Packet", 4, "DataForward"),
        }
    }
}

fn samples() -> Vec<Packet> {
    vec![
        Packet::Ack,
        Packet::Init,
        Packet::Success(String::from("foo")),
        Packet::Success(String::new()),
        Packet::DataInit(String::from("tunnel.example.org")),
        Packet::DataInit(String::from("gr\u{fc}\u{df}e.\u{4e16}\u{754c}.\u{1f600}")),
        Packet::DataForward,
    ]
}

#[test]
fn unit_variants_encode_as_their_tag() {
    assert_eq!(Packet::Ack.encode(), vec![0u8, 0, 0, 0]);
    assert_eq!(Packet::Init.encode(), vec![1u8, 0, 0, 0]);
    assert_eq!(Packet::DataForward.encode(), vec![4u8, 0, 0, 0]);
}

#[test]
fn text_variants_encode_tag_length_and_bytes() {
    assert_eq!(
        Packet::Success(String::from("foo")).encode(),
        vec![2u8, 0, 0, 0, 3, 0, 0, 0, 0, 0, 0, 0, b'f', b'o', b'o']
    );
    assert_eq!(
        Packet::DataInit(String::from("\u{e9}")).encode(),
        vec![3u8, 0, 0, 0, 2, 0, 0, 0, 0, 0, 0, 0, 0xc3, 0xa9]
    );
    assert_eq!(
        Packet::Success(String::new()).encode(),
        vec![2u8, 0, 0, 0, 0, 0, 0, 0, 0, 0, 0, 0]
    );
}

#[test]
fn tags_are_as_the_constants_say() {
    assert_eq!(Packet::Ack.tag(), revtunnel::packet::TAG_ACK);
    assert_eq!(Packet::Init.tag(), revtunnel::packet::TAG_INIT);
    assert_eq!(Packet::Success(String::new()).tag(), revtunnel::packet::TAG_SUCCESS);
    assert_eq!(Packet::DataInit(String::new()).tag(), revtunnel::packet::TAG_DATA_INIT);
    assert_eq!(Packet::DataForward.tag(), revtunnel::packet::TAG_DATA_FORWARD);
}

#[test]
fn every_variant_round_trips() {
    for packet in samples() {
        let bytes = packet.encode();
        assert_eq!(Packet::parse(&bytes), Ok(packet.clone()));
        assert_eq!(Packet::parse_prefix(&bytes), Ok((packet, bytes.len())));
    }
}

#[test]
fn encoding_is_what_bincode_writes_for_the_enum() {
    let pairs = vec![
        (Packet::Ack, Mirror::Ack),
        (Packet::Init, Mirror::Init),
        (Packet::Success(String::from("foo")), Mirror::Success(String::from("foo"))),
        (
            Packet::DataInit(String::from("b\u{e4}r.example")),
            Mirror::DataInit(String::from("b\u{e4}r.example")),
        ),
        (Packet::DataForward, Mirror::DataForward),
    ];
    for (packet, mirror) in pairs {
        assert_eq!(packet.encode(), bincode::serialize(&mirror).unwrap());
    }
}

#[test]
fn every_proper_prefix_is_truncated() {
    for packet in samples() {
        let bytes = packet.encode();
        for k in 0..bytes.len() {
            assert_eq!(Packet::parse(&bytes[..k]), Err(DecodeError::Truncated));
            assert_eq!(Packet::parse_prefix(&bytes[..k]), Err(DecodeError::Truncated));
        }
    }
}

#[test]
fn empty_input_is_truncated() {
    assert_eq!(Packet::parse(&[]), Err(DecodeError::Truncated));
}

#[test]
fn unknown_tag_is_an_error() {
    assert_eq!(Packet::parse(&[5, 0, 0, 0]), Err(DecodeError::UnknownTag(5)));
    assert_eq!(
        Packet::parse(&[0xff, 0xff, 0xff, 0xff, 1, 2, 3]),
        Err(DecodeError::UnknownTag(u32::MAX))
    );
    assert_eq!(Packet::parse(&[0, 1, 0, 0]), Err(DecodeError::UnknownTag(256)));
}

#[test]
fn invalid_utf8_is_an_error() {
    let bytes = vec![2u8, 0, 0, 0, 2, 0, 0, 0, 0, 0, 0, 0, 0xc3, 0x28];
    assert_eq!(Packet::parse(&bytes), Err(DecodeError::InvalidUtf8));
    let lone_surrogate = vec![3u8, 0, 0, 0, 3, 0, 0, 0, 0, 0, 0, 0, 0xed, 0xa0, 0x80];
    assert_eq!(Packet::parse(&lone_surrogate), Err(DecodeError::InvalidUtf8));
}

#[test]
fn a_length_beyond_the_input_is_truncated() {
    let bytes = vec![2u8, 0, 0, 0, 0xff, 0xff, 0xff, 0xff, 0xff, 0xff, 0xff, 0xff, b'a'];
    assert_eq!(Packet::parse(&bytes), Err(DecodeError::Truncated));
    let short = vec![3u8, 0, 0, 0, 4, 0, 0, 0, 0, 0, 0, 0, b'a', b'b', b'c'];
    assert_eq!(Packet::parse(&short), Err(DecodeError::Truncated));
}

#[test]
fn bytes_after_a_message_are_left_alone() {
    let mut bytes = Packet::Success(String::from("foo")).encode();
    let first = bytes.len();
    bytes.extend_from_slice(&Packet::Ack.encode());
    bytes.push(0x99);
    assert_eq!(
        Packet::parse_prefix(&bytes),
        Ok((Packet::Success(String::from("foo")), first))
    );
    assert_eq!(Packet::parse_prefix(&bytes[first..]), Ok((Packet::Ack, 4)));
    assert_eq!(Packet::parse(&bytes), Ok(Packet::Success(String::from("foo"))));
}

#[test]
fn arbitrary_bytes_never_decode_wrongly() {
    let mut seed: u32 = 0x2545_f491;
    for _ in 0..2000 {
        let mut bytes = Vec::new();
        seed ^= seed << 13;
        seed ^= seed >> 17;
        seed ^= seed << 5;
        let len = (seed % 24) as usize;
        for _ in 0..len {
            seed ^= seed << 13;
            seed ^= seed >> 17;
            seed ^= seed << 5;
            bytes.push((seed % 7) as u8);
        }
        match Packet::parse_prefix(&bytes) {
            Ok((packet, n)) => {
                assert!(n <= bytes.len());
                assert_eq!(packet.encode(), bytes[..n].to_vec());
            }
            Err(DecodeError::Truncated) => {
                assert!(bytes.len() < 12 || bytes[0] == 2 || bytes[0] == 3);
            }
            Err(DecodeError::UnknownTag(tag)) => {
                assert!(tag > 4);
                assert_eq!(tag.to_le_bytes().to_vec(), bytes[..4].to_vec());
            }
            Err(DecodeError::InvalidUtf8) => {
                assert!(bytes[0] == 2 || bytes[0] == 3);
            }
        }
    }
}

#[test]
fn clone_keeps_the_message() {
    for packet in samples() {
        assert_eq!(packet.clone(), packet);
    }
}
