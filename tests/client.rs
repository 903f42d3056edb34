use game_core::client::{
    client_id_from_millis, ClientLobby, ClientPlugin, ClientReplica, ControlledPlayer, CreateOutcome,
    CurrentClientId, PlayerEntities, PlayerMapping,
};
use game_core::wire::{NetworkedEntities, Translation};

fn at(x: f32, y: f32) -> Translation {
    Translation { x: x.to_bits(), y: y.to_bits(), z: 0.0f32.to_bits() }
}

#[test]
fn lobby_and_mapping_basics() {
    let mut lobby = ClientLobby::new();
    let e = PlayerEntities { client_entity: 5, server_entity: 50 };
    lobby.add_player(&1, e);
    assert_eq!(lobby.get_player_entities(&1), Some(&e));
    assert_eq!(lobby.remove_player(&1), Some(e));
    assert_eq!(lobby.remove_player(&1), None);
    let mut mapping = PlayerMapping::new();
    mapping.add(50, 5);
    assert_eq!(mapping.get(&50), Some(&5));
    mapping.remove(&50);
    assert_eq!(mapping.get(&50), None);
}

#[test]
fn create_then_remove_leaves_views_empty() {
    let mut r = ClientReplica::new(CurrentClientId(9));
    let out = r.on_player_create(1, 100, 7);
    assert_eq!(out, CreateOutcome::Created { stale: None, controlled: false });
    assert_eq!(r.mapping().get(&100), Some(&7));
    assert_eq!(r.on_player_remove(1), Some(7));
    assert_eq!(r.lobby().get_player_entities(&1), None);
    assert_eq!(r.mapping().get(&100), None);
}

#[test]
fn remove_unknown_is_noop() {
    let mut r = ClientReplica::new(CurrentClientId(9));
    r.on_player_create(1, 100, 7);
    assert_eq!(r.on_player_remove(2), None);
    assert_eq!(r.lobby().get_player_entities(&1), Some(&PlayerEntities { client_entity: 7, server_entity: 100 }));
    assert_eq!(r.mapping().get(&100), Some(&7));
}

#[test]
fn own_player_is_controlled() {
    let mut r = ClientReplica::new(CurrentClientId(9));
    assert_eq!(r.on_player_create(9, 100, 7), CreateOutcome::Created { stale: None, controlled: true });
    assert_eq!(r.controlled(), Some(ControlledPlayer { entity: 7 }));
    r.on_player_create(3, 101, 8);
    assert_eq!(r.controlled(), Some(ControlledPlayer { entity: 7 }));
    r.on_player_remove(9);
    assert_eq!(r.controlled(), None);
}

#[test]
fn duplicate_create_replaces_proxy() {
    let mut r = ClientReplica::new(CurrentClientId(9));
    r.on_player_create(9, 100, 7);
    let out = r.on_player_create(9, 100, 8);
    assert_eq!(out, CreateOutcome::Created { stale: Some(7), controlled: true });
    assert_eq!(r.controlled(), Some(ControlledPlayer { entity: 8 }));
    assert_eq!(r.mapping().get(&100), Some(&8));
    let moved = r.on_player_create(9, 200, 9);
    assert_eq!(moved, CreateOutcome::Created { stale: Some(8), controlled: true });
    assert_eq!(r.mapping().get(&100), None);
    assert_eq!(r.mapping().get(&200), Some(&9));
}

#[test]
fn create_for_a_taken_server_entity_is_rejected() {
    let mut r = ClientReplica::new(CurrentClientId(9));
    r.on_player_create(1, 100, 7);
    assert_eq!(r.on_player_create(2, 100, 8), CreateOutcome::Rejected);
    assert_eq!(r.lobby().get_player_entities(&2), None);
    assert_eq!(r.mapping().get(&100), Some(&7));
}

#[test]
fn snapshot_moves_known_proxies() {
    let mut r = ClientReplica::new(CurrentClientId(9));
    r.on_player_create(1, 100, 7);
    r.on_player_create(2, 200, 8);
    let s = NetworkedEntities { entities: vec![200, 300, 100], translations: vec![at(1.0, 2.0), at(3.0, 4.0), at(5.0, 6.0)] };
    assert_eq!(r.on_networked_entities(&s), Some(vec![(8, at(1.0, 2.0)), (7, at(5.0, 6.0))]));
}

#[test]
fn snapshot_with_unequal_lengths_is_rejected() {
    let mut r = ClientReplica::new(CurrentClientId(9));
    r.on_player_create(1, 100, 7);
    let s = NetworkedEntities { entities: vec![100, 100], translations: vec![at(1.0, 2.0)] };
    assert_eq!(r.on_networked_entities(&s), None);
    let t = NetworkedEntities { entities: vec![], translations: vec![at(1.0, 2.0)] };
    assert_eq!(r.on_networked_entities(&t), None);
}

#[test]
fn client_id_from_session_time() {
    assert_eq!(client_id_from_millis(1_700_000_000_123), 1_700_000_000_123);
    assert_eq!(client_id_from_millis((1u128 << 64) + 5), 5);
    let p = ClientPlugin::new(42);
    assert_eq!(p.client_id, CurrentClientId(42));
    assert_eq!(p.replica().current_client_id(), CurrentClientId(42));
}
