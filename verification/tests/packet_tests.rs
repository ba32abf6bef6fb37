use rustp2p::node::NodeID;
use rustp2p::packet::{
    decode_packet, encode_packet, PacketError, PacketHeader, ProtocolType, FLAG_BROADCAST,
    FLAG_EXTENDED,
};

fn short_header() -> PacketHeader {
    PacketHeader {
        protocol: ProtocolType::UserData,
        ttl: 15,
        flags: 0,
        src_id: NodeID::Short([10, 0, 0, 1]),
        dst_id: NodeID::Short([10, 0, 0, 2]),
    }
}

#[test]
fn encode_short_id_header_exact_bytes() {
    let h = short_header();
    let bytes = encode_packet(&h, &[0xaa, 0xbb]).unwrap();
    assert_eq!(
        bytes,
        vec![0x10, 0, 15, 0, 10, 0, 0, 1, 10, 0, 0, 2, 0xaa, 0xbb]
    );
}

#[test]
fn encode_extended_id_header_sets_width_code() {
    let h = PacketHeader {
        protocol: ProtocolType::Heartbeat,
        ttl: 1,
        flags: FLAG_EXTENDED,
        src_id: NodeID::Extended([1; 16]),
        dst_id: NodeID::Extended([2; 16]),
    };
    let bytes = encode_packet(&h, &[]).unwrap();
    assert_eq!(bytes.len(), 4 + 32);
    assert_eq!(bytes[0], 0x11);
    assert_eq!(bytes[1], 1);
    assert_eq!(bytes[3], FLAG_EXTENDED);
    assert_eq!(&bytes[4..20], &[1u8; 16]);
    assert_eq!(&bytes[20..36], &[2u8; 16]);
}

#[test]
fn encode_refuses_mixed_id_widths() {
    let h = PacketHeader {
        protocol: ProtocolType::UserData,
        ttl: 9,
        flags: 0,
        src_id: NodeID::Short([1, 2, 3, 4]),
        dst_id: NodeID::Extended([0; 16]),
    };
    assert_eq!(encode_packet(&h, &[]), Err(PacketError::MalformedPacket));
}

#[test]
fn encode_refuses_reserved_flags() {
    let mut h = short_header();
    h.flags = 4;
    assert_eq!(encode_packet(&h, &[]), Err(PacketError::MalformedPacket));
    h.flags = FLAG_EXTENDED | FLAG_BROADCAST;
    assert!(encode_packet(&h, &[]).is_ok());
}

#[test]
fn decode_recovers_header_and_payload() {
    let h = short_header();
    let payload = vec![1, 2, 3, 4, 5];
    let bytes = encode_packet(&h, &payload).unwrap();
    let (got_h, got_p) = decode_packet(&bytes).unwrap();
    assert_eq!(got_h, h);
    assert_eq!(got_p, payload);
}

#[test]
fn decode_recovers_extended_header() {
    let h = PacketHeader {
        protocol: ProtocolType::PunchRequest,
        ttl: 3,
        flags: FLAG_BROADCAST,
        src_id: NodeID::Extended([7; 16]),
        dst_id: NodeID::Extended([0; 16]),
    };
    let bytes = encode_packet(&h, b"probe").unwrap();
    let (got_h, got_p) = decode_packet(&bytes).unwrap();
    assert_eq!(got_h, h);
    assert_eq!(got_p, b"probe".to_vec());
}

#[test]
fn decode_empty_payload() {
    let h = short_header();
    let bytes = encode_packet(&h, &[]).unwrap();
    let (_, got_p) = decode_packet(&bytes).unwrap();
    assert!(got_p.is_empty());
}

#[test]
fn decode_rejects_truncated_prefix() {
    assert_eq!(decode_packet(&[0x10, 0, 1]), Err(PacketError::MalformedPacket));
}

#[test]
fn decode_rejects_truncated_ids() {
    // Short-id packet needs 12 bytes; give it 11.
    let bytes = vec![0x10, 0, 1, 0, 1, 2, 3, 4, 5, 6, 7];
    assert_eq!(decode_packet(&bytes), Err(PacketError::MalformedPacket));
}

#[test]
fn decode_rejects_wrong_version() {
    let mut bytes = encode_packet(&short_header(), &[]).unwrap();
    bytes[0] = 0x20;
    assert_eq!(decode_packet(&bytes), Err(PacketError::MalformedPacket));
}

#[test]
fn decode_rejects_unassigned_width_code() {
    let mut bytes = encode_packet(&short_header(), &[]).unwrap();
    bytes[0] = 0x12;
    assert_eq!(decode_packet(&bytes), Err(PacketError::MalformedPacket));
}

#[test]
fn decode_rejects_unassigned_type() {
    let mut bytes = encode_packet(&short_header(), &[]).unwrap();
    bytes[1] = 10;
    assert_eq!(decode_packet(&bytes), Err(PacketError::MalformedPacket));
    bytes[1] = 200;
    assert_eq!(decode_packet(&bytes), Err(PacketError::MalformedPacket));
}

#[test]
fn decode_rejects_reserved_flags() {
    let mut bytes = encode_packet(&short_header(), &[]).unwrap();
    bytes[3] = 0x80;
    assert_eq!(decode_packet(&bytes), Err(PacketError::MalformedPacket));
}

#[test]
fn protocol_type_codes_round_trip() {
    let all = [
        ProtocolType::UserData,
        ProtocolType::Heartbeat,
        ProtocolType::HeartbeatReply,
        ProtocolType::IDQuery,
        ProtocolType::IDQueryReply,
        ProtocolType::PunchRequest,
        ProtocolType::PunchReply,
        ProtocolType::TimestampRequest,
        ProtocolType::TimestampReply,
        ProtocolType::ExtendedTxt,
    ];
    for (i, t) in all.iter().enumerate() {
        assert_eq!(t.code(), i as u8);
        assert_eq!(ProtocolType::from_code(i as u8), Some(*t));
    }
    assert_eq!(ProtocolType::from_code(10), None);
    assert_eq!(ProtocolType::from_code(128), None);
    assert_eq!(ProtocolType::from_code(255), None);
}
