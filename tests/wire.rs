use game_core::wire::{
    deserialize_networked_entities, deserialize_server_message, serialize_networked_entities,
    serialize_server_message, NetworkedEntities, ServerMessages, Translation,
};

fn at(x: f32, y: f32, z: f32) -> Translation {
    Translation { x: x.to_bits(), y: y.to_bits(), z: z.to_bits() }
}

fn round_trip(m: ServerMessages) {
    let bytes = serialize_server_message(&m);
    let (back, used) = deserialize_server_message(&bytes);
    assert_eq!(back, m);
    assert_eq!(used, bytes.len());
}

#[test]
fn player_remove_bytes() {
    let bytes = serialize_server_message(&ServerMessages::PlayerRemove { id: 7 });
    assert_eq!(bytes, vec![1, 7]);
}

#[test]
fn varint_boundaries_bytes() {
    let at_250 = serialize_server_message(&ServerMessages::PlayerRemove { id: 250 });
    assert_eq!(at_250, vec![1, 250]);
    let at_251 = serialize_server_message(&ServerMessages::PlayerRemove { id: 251 });
    assert_eq!(at_251, vec![1, 251, 251, 0]);
    let at_65536 = serialize_server_message(&ServerMessages::PlayerRemove { id: 65536 });
    assert_eq!(at_65536, vec![1, 252, 0, 0, 1, 0]);
    let max = serialize_server_message(&ServerMessages::PlayerRemove { id: u64::MAX });
    assert_eq!(max, vec![1, 253, 255, 255, 255, 255, 255, 255, 255, 255]);
}

#[test]
fn player_create_bytes() {
    let m = ServerMessages::PlayerCreate { entity: 3, id: 2, translation: at(1.0, 0.0, -2.0) };
    let bytes = serialize_server_message(&m);
    assert_eq!(bytes, vec![0, 3, 2, 0, 0, 0x80, 0x3f, 0, 0, 0, 0, 0, 0, 0, 0xc0]);
}

#[test]
fn error_bytes() {
    let m = ServerMessages::Error { message: "hé".to_string() };
    let bytes = serialize_server_message(&m);
    assert_eq!(bytes, vec![2, 3, b'h', 0xc3, 0xa9]);
}

#[test]
fn round_trip_every_variant() {
    round_trip(ServerMessages::PlayerCreate { entity: 42, id: 1_700_000_000_000, translation: at(-399.5, 0.0, 0.0) });
    round_trip(ServerMessages::PlayerCreate { entity: u64::MAX, id: u64::MAX, translation: at(f32::MAX, f32::MIN, -0.0) });
    round_trip(ServerMessages::PlayerCreate { entity: 0, id: 0, translation: at(0.0, 0.0, 0.0) });
    round_trip(ServerMessages::PlayerRemove { id: u64::MAX });
    round_trip(ServerMessages::PlayerRemove { id: 0 });
    round_trip(ServerMessages::Error { message: String::new() });
    round_trip(ServerMessages::Error { message: "connexion perdue: délai dépassé".to_string() });
}

#[test]
fn trailing_bytes_are_left() {
    let mut bytes = serialize_server_message(&ServerMessages::PlayerRemove { id: 9 });
    bytes.push(0xff);
    let (back, used) = deserialize_server_message(&bytes);
    assert_eq!(back, ServerMessages::PlayerRemove { id: 9 });
    assert_eq!(used, 2);
}

#[test]
fn malformed_input_gives_error() {
    let cases: Vec<Vec<u8>> = vec![
        vec![],
        vec![3],
        vec![255],
        vec![1],
        vec![1, 251, 0],
        vec![1, 254, 0, 0, 0, 0, 0, 0, 0, 0],
        vec![0, 1, 2, 0, 0, 0],
        vec![2, 5, b'a'],
        vec![2, 2, 0xc3, 0x28],
    ];
    for case in cases {
        let (m, used) = deserialize_server_message(&case);
        assert!(matches!(m, ServerMessages::Error { .. }), "{:?}", case);
        assert_eq!(used, 0);
    }
}

#[test]
fn snapshot_round_trip_empty() {
    let s = NetworkedEntities::default();
    let bytes = serialize_networked_entities(&s);
    assert_eq!(bytes, vec![0, 0]);
    let (back, used) = deserialize_networked_entities(&bytes).unwrap();
    assert_eq!(back, s);
    assert_eq!(used, 2);
}

#[test]
fn snapshot_round_trip_values() {
    let s = NetworkedEntities {
        entities: vec![1, u64::MAX, 300],
        translations: vec![at(1.0, 2.0, 3.0), at(-1.0, 0.5, 0.0), at(100.0, 0.0, -7.25)],
    };
    let bytes = serialize_networked_entities(&s);
    let (back, used) = deserialize_networked_entities(&bytes).unwrap();
    assert_eq!(back, s);
    assert_eq!(used, bytes.len());
}

#[test]
fn snapshot_with_unequal_lengths_decodes_as_sent() {
    let s = NetworkedEntities { entities: vec![5, 6], translations: vec![at(1.0, 1.0, 1.0)] };
    let bytes = serialize_networked_entities(&s);
    let (back, _) = deserialize_networked_entities(&bytes).unwrap();
    assert_eq!(back, s);
}

#[test]
fn snapshot_malformed_is_none() {
    assert!(deserialize_networked_entities(&[]).is_none());
    assert!(deserialize_networked_entities(&[2, 1]).is_none());
    assert!(deserialize_networked_entities(&[0, 1, 0, 0]).is_none());
}
