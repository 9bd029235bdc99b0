use connectalso::relay_proto::{
    MsgType, PeerId, ProtoError, RelayFrame, HEADER_LEN, MAX_PAYLOAD, PROTO_VERSION,
};

#[test]
fn hello_roundtrip() {
    let id = PeerId::new_v4();
    let frame = RelayFrame::hello(id);
    let encoded = frame.encode().unwrap();
    let decoded = RelayFrame::decode(&encoded).unwrap();
    assert_eq!(decoded.sender_id, id);
    assert_eq!(decoded.target_id, PeerId::nil());
    assert_eq!(decoded.msg_type, MsgType::Hello);
    assert!(decoded.payload.is_empty());
}

#[test]
fn data_roundtrip() {
    let alice = PeerId::new_v4();
    let bob = PeerId::new_v4();
    let payload = vec![0xAA; 256];
    let frame = RelayFrame::data(alice, bob, payload.clone());
    let encoded = frame.encode().unwrap();
    let decoded = RelayFrame::decode(&encoded).unwrap();
    assert_eq!(decoded.sender_id, alice);
    assert_eq!(decoded.target_id, bob);
    assert_eq!(decoded.msg_type, MsgType::Data);
    assert_eq!(decoded.payload, payload);
}

#[test]
fn payload_too_large() {
    let id = PeerId::new_v4();
    let frame = RelayFrame::data(id, id, vec![0; MAX_PAYLOAD + 1]);
    assert!(frame.encode().is_err());
}

#[test]
fn decode_truncated() {
    assert!(RelayFrame::decode(&[0x01]).is_err());
    assert!(RelayFrame::decode(&[0u8; 35]).is_err());
}

#[test]
fn decode_bad_version() {
    let mut data = vec![0u8; HEADER_LEN];
    data[0] = 0xFF;
    assert!(RelayFrame::decode(&data).is_err());
}

#[test]
fn decode_bad_type() {
    let mut data = vec![0u8; HEADER_LEN];
    data[0] = PROTO_VERSION;
    data[1] = 0xFF;
    assert!(RelayFrame::decode(&data).is_err());
}

#[test]
fn each_error_names_its_cause() {
    assert_eq!(RelayFrame::decode(&[0u8; 35]).err(), Some(ProtoError::FrameTooShort(35)));
    let mut data = vec![0u8; HEADER_LEN];
    data[0] = 0xFF;
    assert_eq!(RelayFrame::decode(&data).err(), Some(ProtoError::UnknownVersion(0xFF)));
    data[0] = PROTO_VERSION;
    data[1] = 0x07;
    assert_eq!(RelayFrame::decode(&data).err(), Some(ProtoError::UnknownType(0x07)));
    let id = PeerId { bits: 1 };
    let frame = RelayFrame::data(id, id, vec![0; 2049]);
    assert_eq!(frame.encode().err(), Some(ProtoError::PayloadTooLarge(2049)));
    let mut data = vec![PROTO_VERSION, 0x02];
    data.extend([0; 32]);
    data.extend([0x08, 0x01]);
    assert_eq!(RelayFrame::decode(&data).err(), Some(ProtoError::FrameTooShort(36)));
    data.extend([0; 2049]);
    assert_eq!(RelayFrame::decode(&data).err(), Some(ProtoError::PayloadTooLarge(2049)));
}

#[test]
fn wire_layout_is_fixed() {
    let sender = PeerId { bits: 0x0102_0304_0506_0708_090A_0B0C_0D0E_0F10 };
    let target = PeerId { bits: 0x1112_1314_1516_1718_191A_1B1C_1D1E_1F20 };
    let bytes = RelayFrame::data(sender, target, vec![0xEE, 0xFF]).encode().unwrap();
    let mut expected: Vec<u8> = vec![PROTO_VERSION, MsgType::Data.to_byte()];
    expected.extend(1..=0x20u8);
    expected.extend([0x00, 0x02, 0xEE, 0xFF]);
    assert_eq!(bytes, expected);
}

#[test]
fn largest_payload_fits() {
    let id = PeerId { bits: 7 };
    let bytes = RelayFrame::data(id, id, vec![9; MAX_PAYLOAD]).encode().unwrap();
    assert_eq!(bytes.len(), HEADER_LEN + MAX_PAYLOAD);
    assert_eq!(RelayFrame::decode(&bytes).unwrap().payload.len(), MAX_PAYLOAD);
}

#[test]
fn decoding_and_encoding_again_gives_the_same_frame() {
    let mut bytes = RelayFrame::keepalive(PeerId { bits: 3 }).encode().unwrap();
    bytes.extend([1, 2, 3]);
    let decoded = RelayFrame::decode(&bytes).unwrap();
    assert_eq!(decoded.msg_type, MsgType::Keepalive);
    let again = RelayFrame::decode(&decoded.encode().unwrap()).unwrap();
    assert_eq!(again.sender_id, decoded.sender_id);
    assert_eq!(again.target_id, decoded.target_id);
    assert_eq!(again.msg_type, decoded.msg_type);
    assert_eq!(again.payload, decoded.payload);
}

#[test]
fn message_types_have_their_bytes() {
    for ty in [MsgType::Hello, MsgType::Data, MsgType::Keepalive] {
        assert_eq!(MsgType::from_byte(ty.to_byte()), Some(ty));
    }
    assert_eq!(MsgType::from_byte(0x01), Some(MsgType::Hello));
    assert_eq!(MsgType::from_byte(0x02), Some(MsgType::Data));
    assert_eq!(MsgType::from_byte(0x03), Some(MsgType::Keepalive));
    assert_eq!(MsgType::from_byte(0x00), None);
    assert_eq!(MsgType::from_byte(0x04), None);
}

#[test]
fn identifiers_are_written_as_uuids() {
    let id = PeerId { bits: 0x550E_8400_E29B_41D4_A716_4466_5544_0000 };
    assert_eq!(id.to_string(), "550e8400-e29b-41d4-a716-446655440000");
    assert_eq!(PeerId::nil().to_string(), "00000000-0000-0000-0000-000000000000");
    assert_eq!(PeerId::parse_str("550e8400-e29b-41d4-a716-446655440000"), Some(id));
    assert_eq!(PeerId::parse_str("550E8400E29B41D4A716446655440000"), Some(id));
    assert_eq!(PeerId::parse_str("no uuid"), None);
}

#[test]
fn random_identifiers_are_version_four() {
    let id = PeerId::new_v4();
    let bytes = id.to_bytes();
    assert_eq!(bytes[6] >> 4, 4);
    assert_eq!(bytes[8] >> 6, 2);
    assert_ne!(id, PeerId::new_v4());
    let mut array = [0u8; 16];
    array.copy_from_slice(&bytes);
    assert_eq!(PeerId::from_bytes(array), id);
}
