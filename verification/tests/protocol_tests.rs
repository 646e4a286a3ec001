use std::collections::BTreeMap;

use snake_web_client::protocol::{encode, encode_join, encode_turn, ClientMessage};

fn expected_join(username: &str) -> Vec<u8> {
    let mut out: Vec<u8> = Vec::new();
    rmp::encode::write_map_len(&mut out, 2).unwrap();
    rmp::encode::write_str(&mut out, "type").unwrap();
    rmp::encode::write_str(&mut out, "join").unwrap();
    rmp::encode::write_str(&mut out, "username").unwrap();
    rmp::encode::write_str(&mut out, username).unwrap();
    out
}

fn expected_turn(dir: u8) -> Vec<u8> {
    let mut out: Vec<u8> = Vec::new();
    rmp::encode::write_map_len(&mut out, 2).unwrap();
    rmp::encode::write_str(&mut out, "type").unwrap();
    rmp::encode::write_str(&mut out, "turn").unwrap();
    rmp::encode::write_str(&mut out, "dir").unwrap();
    rmp::encode::write_uint(&mut out, dir as u64).unwrap();
    out
}

#[test]
fn join_frame_exact_bytes() {
    let bytes = encode(&ClientMessage::Join { username: "alice".to_string() }).unwrap();
    assert_eq!(
        bytes,
        vec![
            0x82, 0xa4, b't', b'y', b'p', b'e', 0xa4, b'j', b'o', b'i', b'n', 0xa8, b'u', b's',
            b'e', b'r', b'n', b'a', b'm', b'e', 0xa5, b'a', b'l', b'i', b'c', b'e'
        ]
    );
}

#[test]
fn join_frame_matches_msgpack_writer() {
    for name in ["", "bob", "ñandú-🐍", &"x".repeat(31), &"y".repeat(32), &"z".repeat(255), &"w".repeat(256), &"v".repeat(70000)] {
        let bytes = encode(&ClientMessage::Join { username: name.to_string() }).unwrap();
        assert_eq!(bytes, expected_join(name));
        assert_eq!(encode_join(&name.to_string()), bytes);
    }
}

#[test]
fn join_frame_decodes_as_tagged_map() {
    let bytes = encode(&ClientMessage::Join { username: "carol".to_string() }).unwrap();
    let map: BTreeMap<String, String> = rmp_serde::from_slice(&bytes).unwrap();
    assert_eq!(map.len(), 2);
    assert_eq!(map["type"], "join");
    assert_eq!(map["username"], "carol");
}

#[test]
fn turn_frames_match_msgpack_writer() {
    for dir in [0u8, 1, 2, 3, 127, 128, 200, 255] {
        let bytes = encode(&ClientMessage::Turn { dir }).unwrap();
        assert_eq!(bytes, expected_turn(dir));
        assert_eq!(encode_turn(dir), bytes);
    }
}

#[test]
fn turn_frame_exact_bytes() {
    assert_eq!(
        encode_turn(2),
        vec![0x82, 0xa4, b't', b'y', b'p', b'e', 0xa4, b't', b'u', b'r', b'n', 0xa3, b'd', b'i', b'r', 0x02]
    );
    assert_eq!(encode_turn(200)[15..], [0xcc, 200]);
}

#[test]
fn turn_frame_decodes_as_tagged_map() {
    let bytes = encode_turn(3);
    let map: BTreeMap<String, serde_json::Value> = rmp_serde::from_slice(&bytes).unwrap();
    assert_eq!(map["type"], serde_json::Value::from("turn"));
    assert_eq!(map["dir"], serde_json::Value::from(3));
}
