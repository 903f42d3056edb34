use bincode::config::standard;
use game_core::wire::{serialize_networked_entities, serialize_server_message, NetworkedEntities, ServerMessages, Translation};

fn at(x: f32, y: f32, z: f32) -> Translation {
    Translation { x: x.to_bits(), y: y.to_bits(), z: z.to_bits() }
}

#[test]
fn layout_matches_bincode_for_create() {
    let ours = serialize_server_message(&ServerMessages::PlayerCreate { entity: 70_000, id: u64::MAX, translation: at(1.5, -2.0, 0.25) });
    let theirs = bincode::encode_to_vec((0u32, 70_000u64, u64::MAX, [1.5f32, -2.0, 0.25]), standard()).unwrap();
    assert_eq!(ours, theirs);
}

#[test]
fn layout_matches_bincode_for_remove_and_error() {
    let ours = serialize_server_message(&ServerMessages::PlayerRemove { id: 300 });
    let theirs = bincode::encode_to_vec((1u32, 300u64), standard()).unwrap();
    assert_eq!(ours, theirs);
    let ours = serialize_server_message(&ServerMessages::Error { message: "délai".to_string() });
    let theirs = bincode::encode_to_vec((2u32, "délai".to_string()), standard()).unwrap();
    assert_eq!(ours, theirs);
}

#[test]
fn layout_matches_bincode_for_snapshot() {
    let s = NetworkedEntities { entities: vec![1, 251, u64::MAX], translations: vec![at(1.0, 2.0, 3.0), at(-4.0, 5.0, 6.5)] };
    let theirs = bincode::encode_to_vec((vec![1u64, 251, u64::MAX], vec![[1.0f32, 2.0, 3.0], [-4.0f32, 5.0, 6.5]]), standard()).unwrap();
    assert_eq!(serialize_networked_entities(&s), theirs);
}
