use game_core::client::{ClientReplica, CurrentClientId};
use game_core::server::{on_server_event, GameEvent, Recipient, ServerEffects, ServerLobby};
use game_core::wire::{deserialize_server_message, serialize_server_message, ServerMessages, Translation};

struct Peer {
    id: u64,
    replica: ClientReplica,
    next_proxy: u64,
    received: Vec<ServerMessages>,
}

impl Peer {
    fn new(id: u64) -> Peer {
        Peer { id, replica: ClientReplica::new(CurrentClientId(id)), next_proxy: 1000 * id, received: Vec::new() }
    }

    fn deliver(&mut self, bytes: &[u8]) {
        let (message, _) = deserialize_server_message(bytes);
        match &message {
            ServerMessages::PlayerCreate { entity, id, .. } => {
                self.next_proxy += 1;
                self.replica.on_player_create(*id, *entity, self.next_proxy);
            }
            ServerMessages::PlayerRemove { id } => {
                self.replica.on_player_remove(*id);
            }
            ServerMessages::Error { .. } => {}
        }
        self.received.push(message);
    }
}

fn send(fx: &ServerEffects, peers: &mut Vec<Peer>) {
    for o in &fx.outgoing {
        let bytes = serialize_server_message(&o.message);
        for p in peers.iter_mut() {
            let to_this = match o.recipient {
                Recipient::Broadcast => true,
                Recipient::Client(id) => id == p.id,
            };
            if to_this {
                p.deliver(&bytes);
            }
        }
    }
}

fn p(x: f32) -> Translation {
    Translation { x: x.to_bits(), y: 0.0f32.to_bits(), z: 0.0f32.to_bits() }
}

#[test]
fn two_clients_join_and_one_leaves() {
    let mut lobby = ServerLobby::new();
    let mut peers: Vec<Peer> = Vec::new();

    peers.push(Peer::new(1));
    let fx = on_server_event(&mut lobby, &GameEvent::PlayerCreated { client_id: 1, entity: 11, position: p(-10.0) });
    send(&fx, &mut peers);
    let create_a = ServerMessages::PlayerCreate { entity: 11, id: 1, translation: p(-10.0) };
    assert_eq!(peers[0].received, vec![create_a.clone()]);

    peers.push(Peer::new(2));
    let fx = on_server_event(&mut lobby, &GameEvent::PlayerCreated { client_id: 2, entity: 22, position: p(20.0) });
    send(&fx, &mut peers);
    let create_b = ServerMessages::PlayerCreate { entity: 22, id: 2, translation: p(20.0) };
    assert_eq!(peers[1].received, vec![create_a.clone(), create_b.clone()]);
    assert_eq!(peers[0].received, vec![create_a.clone(), create_b.clone()]);

    let fx = on_server_event(&mut lobby, &GameEvent::PlayerRemoved { client_id: 1 });
    assert_eq!(fx.despawn, Some(11));
    send(&fx, &mut peers);
    let remove_a = ServerMessages::PlayerRemove { id: 1 };
    assert_eq!(peers[0].received, vec![create_a.clone(), create_b.clone(), remove_a.clone()]);
    assert_eq!(peers[1].received, vec![create_a, create_b, remove_a]);
    let b = &peers[1].replica;
    assert_eq!(b.lobby().get_player_entities(&1), None);
    assert!(b.lobby().get_player_entities(&2).is_some());
    assert_eq!(b.mapping().get(&11), None);
    assert!(b.mapping().get(&22).is_some());
    assert!(b.controlled().is_some());
}

#[test]
fn every_client_knows_every_player() {
    let mut lobby = ServerLobby::new();
    let mut peers: Vec<Peer> = Vec::new();
    for id in 1..=5u64 {
        peers.push(Peer::new(id));
        let fx = on_server_event(&mut lobby, &GameEvent::PlayerCreated { client_id: id, entity: 10 * id, position: p(id as f32) });
        send(&fx, &mut peers);
    }
    for peer in &peers {
        for id in 1..=5u64 {
            assert!(peer.replica.lobby().get_player_entities(&id).is_some());
        }
        assert_eq!(peer.received.len(), 5);
    }
}
