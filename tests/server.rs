use game_core::event::GameEvents;
use game_core::server::{
    on_server_event, GameEvent, GamePlugin, Outgoing, PlayerRecord, Recipient, ServerLobby,
    ServerPlugin, MAX_CLIENTS,
};
use game_core::wire::{ServerMessages, Translation};
use game_core::PROTOCOL_ID;

fn at(x: f32) -> Translation {
    Translation { x: x.to_bits(), y: 0.0f32.to_bits(), z: 0.0f32.to_bits() }
}

fn create(id: u64, entity: u64, x: f32) -> ServerMessages {
    ServerMessages::PlayerCreate { entity, id, translation: at(x) }
}

#[test]
fn lobby_add_get_remove() {
    let mut lobby = ServerLobby::new();
    lobby.add_player(&1, 10, at(1.0));
    lobby.add_player(&2, 20, at(2.0));
    assert_eq!(lobby.get_player(&1), Some(PlayerRecord { id: 1, entity: 10, translation: at(1.0) }));
    lobby.add_player(&1, 11, at(3.0));
    assert_eq!(lobby.players().len(), 2);
    assert_eq!(lobby.get_player(&1).unwrap().entity, 11);
    lobby.remove_player(&1);
    assert_eq!(lobby.get_player(&1), None);
    lobby.remove_player(&99);
    assert_eq!(lobby.players(), vec![PlayerRecord { id: 2, entity: 20, translation: at(2.0) }]);
}

#[test]
fn newcomer_catches_up_then_is_broadcast() {
    let mut lobby = ServerLobby::new();
    on_server_event(&mut lobby, &GameEvent::PlayerCreated { client_id: 1, entity: 10, position: at(1.0) });
    on_server_event(&mut lobby, &GameEvent::PlayerCreated { client_id: 2, entity: 20, position: at(2.0) });
    let fx = on_server_event(&mut lobby, &GameEvent::PlayerCreated { client_id: 3, entity: 30, position: at(3.0) });
    assert_eq!(fx.despawn, None);
    assert_eq!(
        fx.outgoing,
        vec![
            Outgoing { recipient: Recipient::Client(3), message: create(1, 10, 1.0) },
            Outgoing { recipient: Recipient::Client(3), message: create(2, 20, 2.0) },
            Outgoing { recipient: Recipient::Broadcast, message: create(3, 30, 3.0) },
        ]
    );
    assert_eq!(lobby.players().len(), 3);
}

#[test]
fn disconnect_unknown_is_noop() {
    let mut lobby = ServerLobby::new();
    on_server_event(&mut lobby, &GameEvent::PlayerCreated { client_id: 1, entity: 10, position: at(1.0) });
    let before = lobby.players();
    let fx = on_server_event(&mut lobby, &GameEvent::PlayerRemoved { client_id: 5 });
    assert_eq!(fx.despawn, None);
    assert!(fx.outgoing.is_empty());
    assert_eq!(lobby.players(), before);
}

#[test]
fn disconnect_twice_frees_once() {
    let mut lobby = ServerLobby::new();
    on_server_event(&mut lobby, &GameEvent::PlayerCreated { client_id: 1, entity: 10, position: at(1.0) });
    let first = on_server_event(&mut lobby, &GameEvent::PlayerRemoved { client_id: 1 });
    assert_eq!(first.despawn, Some(10));
    assert_eq!(first.outgoing, vec![Outgoing { recipient: Recipient::Broadcast, message: ServerMessages::PlayerRemove { id: 1 } }]);
    let second = on_server_event(&mut lobby, &GameEvent::PlayerRemoved { client_id: 1 });
    assert_eq!(second.despawn, None);
    assert!(second.outgoing.is_empty());
}

#[test]
fn repeated_connect_replaces_entity() {
    let mut lobby = ServerLobby::new();
    on_server_event(&mut lobby, &GameEvent::PlayerCreated { client_id: 1, entity: 10, position: at(1.0) });
    let fx = on_server_event(&mut lobby, &GameEvent::PlayerCreated { client_id: 1, entity: 11, position: at(2.0) });
    assert_eq!(fx.despawn, Some(10));
    assert_eq!(fx.outgoing, vec![Outgoing { recipient: Recipient::Broadcast, message: create(1, 11, 2.0) }]);
    assert_eq!(lobby.players().len(), 1);
}

#[test]
fn connect_counts_for_n_players() {
    let mut lobby = ServerLobby::new();
    for n in 0..6u64 {
        let fx = on_server_event(&mut lobby, &GameEvent::PlayerCreated { client_id: 100 + n, entity: n, position: at(0.0) });
        let to_newcomer = fx.outgoing.iter().filter(|o| o.recipient == Recipient::Client(100 + n)).count();
        let broadcasts = fx.outgoing.iter().filter(|o| o.recipient == Recipient::Broadcast).count();
        assert_eq!(to_newcomer as u64, n);
        assert_eq!(broadcasts, 1);
        assert_eq!(lobby.players().len() as u64, n + 1);
    }
}

#[test]
fn game_plugin_applies_events_in_order() {
    let mut game = GamePlugin::new();
    game.client_connected(1, 10, at(1.0));
    game.client_connected(2, 20, at(2.0));
    game.client_disconnected(1);
    let fx = game.update();
    assert_eq!(fx.len(), 3);
    assert_eq!(fx[1].outgoing[0], Outgoing { recipient: Recipient::Client(2), message: create(1, 10, 1.0) });
    assert_eq!(fx[2].despawn, Some(10));
    assert_eq!(game.lobby().players(), vec![PlayerRecord { id: 2, entity: 20, translation: at(2.0) }]);
    assert!(game.update().is_empty());
}

#[test]
fn event_bridge_is_fifo() {
    let mut events = GameEvents::new();
    events.write(GameEvent::PlayerRemoved { client_id: 3 });
    events.write(GameEvent::PlayerCreated { client_id: 4, entity: 1, position: at(0.0) });
    assert_eq!(events.len(), 2);
    let read = events.read();
    assert_eq!(read, vec![GameEvent::PlayerRemoved { client_id: 3 }, GameEvent::PlayerCreated { client_id: 4, entity: 1, position: at(0.0) }]);
    assert_eq!(events.len(), 0);
}

#[test]
fn server_settings() {
    let s = ServerPlugin::new();
    assert_eq!(s.max_clients, MAX_CLIENTS);
    assert_eq!(s.max_clients, 64);
    assert_eq!(s.protocol_id, PROTOCOL_ID);
    assert_eq!(s.connection_config().available_bytes_per_tick, 1024 * 1024);
}
