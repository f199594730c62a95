use coop_server::wire::DecodeError;
use coop_server::wire::JiggyPacket;
use coop_server::wire::LevelOpenedPacket;
use coop_server::wire::LoginPacket;
use coop_server::wire::NotePacket;
use coop_server::wire::NotePacketPos;
use coop_server::wire::NoteSaveDataPacket;
use coop_server::wire::HoneycombCollectedPacket;
use coop_server::wire::MumboTokenCollectedPacket;
use coop_server::wire::PlayerConnectedBroadcast;
use coop_server::wire::PlayerInfoRequest;
use coop_server::wire::BroadcastJiggy;
use coop_server::wire::read_u32_be;
use coop_server::wire::read_i16_le;
use coop_server::wire::read_i32_le;
use coop_server::wire::write_u32_be;

fn prefixed(s: &str) -> Vec<u8> {
    let mut v = Vec::new();
    v.extend_from_slice(&(s.len() as u32).to_be_bytes());
    v.extend_from_slice(s.as_bytes());
    v
}

#[test]
fn read_u32_be_exact() {
    let data = [1u8, 2, 3, 4];
    assert_eq!(read_u32_be(&data, 0), Ok(0x01020304));
    assert_eq!(read_u32_be(&data, 1), Err(DecodeError::Truncated));
}

#[test]
fn read_le_integers() {
    let data = [0xfe, 0xff, 0xff, 0xff];
    assert_eq!(read_i32_le(&data, 0), Ok(-2));
    let d2 = [0xff, 0x7f];
    assert_eq!(read_i16_le(&d2, 0), Ok(0x7fff));
}

#[test]
fn write_u32_be_bytes() {
    let mut buf = Vec::new();
    write_u32_be(&mut buf, 0xdeadbeef);
    assert_eq!(buf, vec![0xde, 0xad, 0xbe, 0xef]);
}

#[test]
fn jiggy_packet_decode() {
    let mut data = Vec::new();
    data.extend_from_slice(&5i32.to_le_bytes());
    data.extend_from_slice(&7i32.to_le_bytes());
    let p = JiggyPacket::deserialize(&data).unwrap();
    assert_eq!(p.jiggy_enum_id, 5);
    assert_eq!(p.collected_value, 7);
    assert_eq!(JiggyPacket::deserialize(&data[..7]), Err(DecodeError::Truncated));
}

#[test]
fn fixed_length_bodies_reject_trailing_bytes() {
    // oversize bodies are an error for every fixed-length kind
    assert_eq!(JiggyPacket::deserialize(&[0u8; 9]), Err(DecodeError::Oversize));
    assert_eq!(NotePacket::deserialize(&[0u8; 14]), Err(DecodeError::Oversize));
    assert_eq!(NotePacketPos::deserialize(&[0u8; 11]), Err(DecodeError::Oversize));
    assert_eq!(LevelOpenedPacket::deserialize(&[0u8; 9]), Err(DecodeError::Oversize));
    assert_eq!(HoneycombCollectedPacket::deserialize(&[0u8; 21]), Err(DecodeError::Oversize));
    assert_eq!(MumboTokenCollectedPacket::deserialize(&[0u8; 21]), Err(DecodeError::Oversize));
    assert_eq!(PlayerInfoRequest::deserialize(&[0u8; 9]), Err(DecodeError::Oversize));
}

#[test]
fn note_packet_decode() {
    let mut data = Vec::new();
    data.extend_from_slice(&3i32.to_le_bytes());
    data.extend_from_slice(&9i32.to_le_bytes());
    data.push(1);
    data.extend_from_slice(&42i32.to_le_bytes());
    let p = NotePacket::deserialize(&data).unwrap();
    assert_eq!((p.map_id, p.level_id, p.is_dynamic, p.note_index), (3, 9, true, 42));
}

#[test]
fn note_pos_packet_widens() {
    let mut data = Vec::new();
    data.extend_from_slice(&3i32.to_le_bytes());
    data.extend_from_slice(&(-100i16).to_le_bytes());
    data.extend_from_slice(&200i16.to_le_bytes());
    data.extend_from_slice(&300i16.to_le_bytes());
    let p = NotePacketPos::deserialize(&data).unwrap();
    assert_eq!((p.map_id, p.x, p.y, p.z), (3, -100, 200, 300));
}

#[test]
fn level_opened_round() {
    let mut data = Vec::new();
    data.extend_from_slice(&2i32.to_le_bytes());
    data.extend_from_slice(&10i32.to_le_bytes());
    let p = LevelOpenedPacket::deserialize(&data).unwrap();
    assert_eq!((p.world_id, p.jiggy_cost), (2, 10));
    let out = p.serialize();
    let mut expected = Vec::new();
    expected.extend_from_slice(&2i32.to_be_bytes());
    expected.extend_from_slice(&10i32.to_be_bytes());
    assert_eq!(out, expected);
}

#[test]
fn honeycomb_and_token_decode() {
    let mut data = Vec::new();
    for v in [1i32, 2, 3, 4, 5] {
        data.extend_from_slice(&v.to_le_bytes());
    }
    let h = HoneycombCollectedPacket::deserialize(&data).unwrap();
    assert_eq!((h.map_id, h.honeycomb_id, h.x, h.y, h.z), (1, 2, 3, 4, 5));
    let t = MumboTokenCollectedPacket::deserialize(&data).unwrap();
    assert_eq!((t.map_id, t.token_id, t.x, t.y, t.z), (1, 2, 3, 4, 5));
    assert_eq!(
        HoneycombCollectedPacket::deserialize(&data[..19]),
        Err(DecodeError::Truncated)
    );
}

#[test]
fn note_save_data_round() {
    let mut data = Vec::new();
    data.extend_from_slice(&4i32.to_le_bytes());
    data.extend_from_slice(&[7u8; 32]);
    let p = NoteSaveDataPacket::deserialize(&data).unwrap();
    assert_eq!(p.level_index, 4);
    assert_eq!(p.save_data, vec![7u8; 32]);
    let out = p.serialize();
    assert_eq!(&out[..4], &4i32.to_be_bytes());
    assert_eq!(&out[4..], &[7u8; 32]);
}

#[test]
fn login_decode_three_strings() {
    let mut data = Vec::new();
    data.extend_from_slice(&prefixed("L"));
    data.extend_from_slice(&prefixed("secret"));
    data.extend_from_slice(&prefixed("alice"));
    let p = LoginPacket::deserialize(&data).unwrap();
    assert_eq!(p.lobby_name, "L");
    assert_eq!(p.password, "secret");
    assert_eq!(p.username, "alice");
}

#[test]
fn login_decode_truncated() {
    let mut data = Vec::new();
    data.extend_from_slice(&prefixed("L"));
    assert_eq!(LoginPacket::deserialize(&data).err(), Some(DecodeError::Truncated));
}

#[test]
fn login_decode_invalid_utf8() {
    let mut data = Vec::new();
    data.extend_from_slice(&2u32.to_be_bytes());
    data.extend_from_slice(&[0xff, 0xfe]);
    data.extend_from_slice(&prefixed(""));
    data.extend_from_slice(&prefixed("bob"));
    assert_eq!(LoginPacket::deserialize(&data).err(), Some(DecodeError::InvalidUtf8));
}

#[test]
fn jiggy_broadcast_bytes() {
    let b = BroadcastJiggy { jiggy_enum_id: 5, collected_value: 7, collector: "a".to_string() };
    let out = b.serialize(1);
    let mut expected = Vec::new();
    expected.extend_from_slice(&1u32.to_be_bytes());
    expected.extend_from_slice(&5i32.to_be_bytes());
    expected.extend_from_slice(&7i32.to_be_bytes());
    assert_eq!(out, expected);
}

#[test]
fn player_connected_bytes() {
    let b = PlayerConnectedBroadcast { username: "alice".to_string(), player_id: 3 };
    let out = b.serialize();
    let mut expected = Vec::new();
    expected.extend_from_slice(&3u32.to_be_bytes());
    expected.extend_from_slice(&5u32.to_be_bytes());
    expected.extend_from_slice(b"alice");
    assert_eq!(out, expected);
}

#[test]
fn player_info_request_round() {
    let req = PlayerInfoRequest { target_player_id: 9, requester_player_id: 4 };
    let bytes = req.serialize();
    let back = PlayerInfoRequest::deserialize(&bytes).unwrap();
    assert_eq!(back, req);
}
