//! The client's mirror of the server's players: which local proxy stands for
//! which connection and which server entity, and which proxy the local player
//! controls.
use crate::channel::{connection_config, ConnectionSpec};
use crate::wire::{NetworkedEntities, Translation};
use crate::PROTOCOL_ID;
use std::collections::HashMap;
use vstd::prelude::*;

verus! {

broadcast use vstd::std_specs::hash::group_hash_axioms;

/// The local proxy of a player and the entity it mirrors on the server.
#[derive(Clone, Copy, Debug, PartialEq, Eq, Structural)]
pub struct PlayerEntities {
    pub client_entity: u64,
    pub server_entity: u64,
}

/// The connection id this client was given.
#[derive(Clone, Copy, Debug, PartialEq, Eq, Structural)]
pub struct CurrentClientId(pub u64);

/// The proxy that the local player controls.
#[derive(Clone, Copy, Debug, PartialEq, Eq, Structural)]
pub struct ControlledPlayer {
    pub entity: u64,
}

/// Players by connection id.
#[derive(Debug)]
pub struct ClientLobby {
    players: HashMap<u64, PlayerEntities>,
}

/// Local proxies by server entity.
#[derive(Debug)]
pub struct PlayerMapping {
    entities: HashMap<u64, u64>,
}

impl ClientLobby {
    pub closed spec fn view(&self) -> Map<u64, PlayerEntities> {
        self.players@
    }

    /// An empty lobby.
    pub fn new() -> (r: ClientLobby)
        ensures
            r.view() == Map::<u64, PlayerEntities>::empty(),
    {
        ClientLobby { players: HashMap::new() }
    }

    /// Records the entities of connection `client_id`, replacing any it had.
    pub fn add_player(&mut self, client_id: &u64, entities: PlayerEntities)
        ensures
            final(self).view() == old(self).view().insert(*client_id, entities),
    {
        self.players.insert(*client_id, entities);
    }

    /// Drops the entities of connection `client_id` and returns them, if any.
    pub fn remove_player(&mut self, client_id: &u64) -> (r: Option<PlayerEntities>)
        ensures
            final(self).view() == old(self).view().remove(*client_id),
            r == (if old(self).view().contains_key(*client_id) {
                Some(old(self).view()[*client_id])
            } else {
                None
            }),
    {
        self.players.remove(client_id)
    }

    /// The entities of connection `client_id`, if any.
    pub fn get_player_entities(&self, client_id: &u64) -> (r: Option<&PlayerEntities>)
        ensures
            r == (if self.view().contains_key(*client_id) {
                Some(&self.view()[*client_id])
            } else {
                None
            }),
    {
        self.players.get(client_id)
    }
}

impl PlayerMapping {
    pub closed spec fn view(&self) -> Map<u64, u64> {
        self.entities@
    }

    /// An empty mapping.
    pub fn new() -> (r: PlayerMapping)
        ensures
            r.view() == Map::<u64, u64>::empty(),
    {
        PlayerMapping { entities: HashMap::new() }
    }

    /// Maps `server_entity` to the local proxy `client_entity`.
    pub fn add(&mut self, server_entity: u64, client_entity: u64)
        ensures
            final(self).view() == old(self).view().insert(server_entity, client_entity),
    {
        self.entities.insert(server_entity, client_entity);
    }

    /// The local proxy of `server_entity`, if any.
    pub fn get(&self, server_entity: &u64) -> (r: Option<&u64>)
        ensures
            r == (if self.view().contains_key(*server_entity) {
                Some(&self.view()[*server_entity])
            } else {
                None
            }),
    {
        self.entities.get(server_entity)
    }

    /// Forgets `server_entity`.
    pub fn remove(&mut self, server_entity: &u64)
        ensures
            final(self).view() == old(self).view().remove(*server_entity),
    {
        self.entities.remove(server_entity);
    }
}

/// The client's mirror as values.
pub struct ReplicaModel {
    pub own: u64,
    pub lobby: Map<u64, PlayerEntities>,
    pub mapping: Map<u64, u64>,
    pub controlled: Option<u64>,
}

/// The two views agree: each player's server entity maps to its proxy, each
/// mapped server entity belongs to exactly one player, and the controlled proxy
/// is the local player's, if it is known.
pub open spec fn replica_wf(m: ReplicaModel) -> bool {
    &&& forall|id: u64| #[trigger]
        m.lobby.contains_key(id) ==> m.mapping.contains_key(m.lobby[id].server_entity)
            && m.mapping[m.lobby[id].server_entity] == m.lobby[id].client_entity
    &&& forall|s: u64| #[trigger]
        m.mapping.contains_key(s) ==> exists|id: u64| #[trigger]
            m.lobby.contains_key(id) && m.lobby[id].server_entity == s
    &&& forall|a: u64, b: u64|
        #[trigger] m.lobby.contains_key(a) && #[trigger] m.lobby.contains_key(b) && a != b
            ==> m.lobby[a].server_entity != m.lobby[b].server_entity
    &&& m.controlled == (if m.lobby.contains_key(m.own) {
        Some(m.lobby[m.own].client_entity)
    } else {
        None
    })
}

/// A create for `id` names a server entity that another player holds.
pub open spec fn create_conflicts(m: ReplicaModel, id: u64, server_entity: u64) -> bool {
    m.mapping.contains_key(server_entity) && !(m.lobby.contains_key(id)
        && m.lobby[id].server_entity == server_entity)
}

/// The mirror after a create of `id` for `server_entity` with the new proxy `client_entity`:
/// a previous entry of `id` is replaced; a conflicting create changes nothing.
pub open spec fn after_create(m: ReplicaModel, id: u64, server_entity: u64, client_entity: u64) -> ReplicaModel {
    if create_conflicts(m, id, server_entity) {
        m
    } else {
        let kept = if m.lobby.contains_key(id) {
            m.mapping.remove(m.lobby[id].server_entity)
        } else {
            m.mapping
        };
        ReplicaModel {
            own: m.own,
            lobby: m.lobby.insert(id, PlayerEntities { client_entity, server_entity }),
            mapping: kept.insert(server_entity, client_entity),
            controlled: if id == m.own {
                Some(client_entity)
            } else {
                m.controlled
            },
        }
    }
}

/// The mirror after a remove of `id`; nothing changes where `id` is unknown.
pub open spec fn after_remove(m: ReplicaModel, id: u64) -> ReplicaModel {
    if m.lobby.contains_key(id) {
        ReplicaModel {
            own: m.own,
            lobby: m.lobby.remove(id),
            mapping: m.mapping.remove(m.lobby[id].server_entity),
            controlled: if id == m.own {
                None
            } else {
                m.controlled
            },
        }
    } else {
        m
    }
}

/// The proxies a snapshot moves, in order: one for each entity that has a proxy.
pub open spec fn snapshot_moves(
    mapping: Map<u64, u64>,
    entities: Seq<u64>,
    translations: Seq<Translation>,
    n: nat,
) -> Seq<(u64, Translation)>
    decreases n,
{
    if n == 0 {
        Seq::empty()
    } else {
        let prev = snapshot_moves(mapping, entities, translations, (n - 1) as nat);
        let e = entities[n - 1];
        if mapping.contains_key(e) {
            prev.push((mapping[e], translations[n - 1]))
        } else {
            prev
        }
    }
}

pub proof fn lemma_create_wf(m: ReplicaModel, id: u64, server_entity: u64, client_entity: u64)
    requires
        replica_wf(m),
    ensures
        replica_wf(after_create(m, id, server_entity, client_entity)),
{
    if !create_conflicts(m, id, server_entity) {
        let r = after_create(m, id, server_entity, client_entity);
        assert forall|s: u64| #[trigger] r.mapping.contains_key(s) implies exists|j: u64| #[trigger]
            r.lobby.contains_key(j) && r.lobby[j].server_entity == s by {
            if s == server_entity {
                assert(r.lobby.contains_key(id));
            } else {
                assert(m.mapping.contains_key(s));
                let j = choose|j: u64| #[trigger] m.lobby.contains_key(j) && m.lobby[j].server_entity == s;
                if m.lobby.contains_key(id) {
                    assert(j != id);
                }
                assert(r.lobby.contains_key(j));
            }
        }
        assert forall|j: u64| #[trigger] r.lobby.contains_key(j) implies r.mapping.contains_key(
            r.lobby[j].server_entity,
        ) && r.mapping[r.lobby[j].server_entity] == r.lobby[j].client_entity by {
            if j != id {
                assert(m.lobby.contains_key(j));
                if m.lobby.contains_key(id) {
                    assert(m.lobby[j].server_entity != m.lobby[id].server_entity);
                }
                assert(m.lobby[j].server_entity != server_entity);
            }
        }
        assert forall|a: u64, b: u64|
            #[trigger] r.lobby.contains_key(a) && #[trigger] r.lobby.contains_key(b) && a != b
                implies r.lobby[a].server_entity != r.lobby[b].server_entity by {
            if a == id {
                assert(m.lobby.contains_key(b));
                assert(m.mapping.contains_key(m.lobby[b].server_entity));
            } else if b == id {
                assert(m.lobby.contains_key(a));
                assert(m.mapping.contains_key(m.lobby[a].server_entity));
            }
        }
    }
}

pub proof fn lemma_remove_wf(m: ReplicaModel, id: u64)
    requires
        replica_wf(m),
    ensures
        replica_wf(after_remove(m, id)),
{
    if m.lobby.contains_key(id) {
        let r = after_remove(m, id);
        let gone = m.lobby[id].server_entity;
        assert forall|s: u64| #[trigger] r.mapping.contains_key(s) implies exists|j: u64| #[trigger]
            r.lobby.contains_key(j) && r.lobby[j].server_entity == s by {
            let j = choose|j: u64| #[trigger] m.lobby.contains_key(j) && m.lobby[j].server_entity == s;
            assert(j != id);
            assert(r.lobby.contains_key(j));
        }
        assert forall|j: u64| #[trigger] r.lobby.contains_key(j) implies r.mapping.contains_key(
            r.lobby[j].server_entity,
        ) && r.mapping[r.lobby[j].server_entity] == r.lobby[j].client_entity by {
            assert(m.lobby.contains_key(j));
            assert(m.lobby[j].server_entity != gone);
        }
    }
}

/// A create followed by a remove of the same connection, for a connection and a
/// server entity the mirror did not know, leaves both views as they were.
pub proof fn lemma_create_then_remove(m: ReplicaModel, id: u64, server_entity: u64, client_entity: u64)
    requires
        replica_wf(m),
        !m.lobby.contains_key(id),
        !m.mapping.contains_key(server_entity),
    ensures
        after_remove(after_create(m, id, server_entity, client_entity), id).lobby == m.lobby,
        after_remove(after_create(m, id, server_entity, client_entity), id).mapping == m.mapping,
        after_remove(after_create(m, id, server_entity, client_entity), id).controlled == m.controlled,
{
    let r = after_remove(after_create(m, id, server_entity, client_entity), id);
    assert(r.lobby =~= m.lobby);
    assert(r.mapping =~= m.mapping);
}

/// From an empty mirror, a create followed by a remove of the same connection
/// leaves both views empty.
pub proof fn lemma_create_then_remove_from_empty(own: u64, id: u64, server_entity: u64, client_entity: u64)
    ensures
        ({
            let empty = ReplicaModel { own, lobby: Map::empty(), mapping: Map::empty(), controlled: None };
            let r = after_remove(after_create(empty, id, server_entity, client_entity), id);
            r.lobby.is_empty() && r.mapping.is_empty()
        }),
{
    let empty = ReplicaModel { own, lobby: Map::empty(), mapping: Map::empty(), controlled: None };
    lemma_create_then_remove(empty, id, server_entity, client_entity);
}

/// A remove of a connection the mirror does not know changes nothing.
pub proof fn lemma_remove_unknown(m: ReplicaModel, id: u64)
    requires
        !m.lobby.contains_key(id),
    ensures
        after_remove(m, id) == m,
{
}

/// What the caller has to do after a create was handled.
#[derive(Clone, Copy, Debug, PartialEq, Eq, Structural)]
pub enum CreateOutcome {
    /// The new proxy was recorded: despawn `stale`, the proxy it replaces, if any,
    /// and tag the new proxy as locally controlled where `controlled` holds.
    Created { stale: Option<u64>, controlled: bool },
    /// The server entity belongs to another player: despawn the new proxy.
    Rejected,
}

/// The client's mirror of the server's players.
#[derive(Debug)]
pub struct ClientReplica {
    current: CurrentClientId,
    lobby: ClientLobby,
    mapping: PlayerMapping,
    controlled: Option<ControlledPlayer>,
}

impl ClientReplica {
    pub closed spec fn view(&self) -> ReplicaModel {
        ReplicaModel {
            own: self.current.0,
            lobby: self.lobby.view(),
            mapping: self.mapping.view(),
            controlled: match self.controlled {
                Some(c) => Some(c.entity),
                None => None,
            },
        }
    }

    pub closed spec fn wf(&self) -> bool {
        replica_wf(self.view())
    }

    /// An empty mirror for the client with connection id `current`.
    pub fn new(current: CurrentClientId) -> (r: ClientReplica)
        ensures
            r.wf(),
            r.view() == (ReplicaModel {
                own: current.0,
                lobby: Map::empty(),
                mapping: Map::empty(),
                controlled: None,
            }),
    {
        ClientReplica {
            current,
            lobby: ClientLobby::new(),
            mapping: PlayerMapping::new(),
            controlled: None,
        }
    }

    /// The connection id of this client.
    pub fn current_client_id(&self) -> (r: CurrentClientId)
        ensures
            r.0 == self.view().own,
    {
        self.current
    }

    /// The players by connection id.
    pub fn lobby(&self) -> (r: &ClientLobby)
        ensures
            r.view() == self.view().lobby,
    {
        &self.lobby
    }

    /// The local proxies by server entity.
    pub fn mapping(&self) -> (r: &PlayerMapping)
        ensures
            r.view() == self.view().mapping,
    {
        &self.mapping
    }

    /// The proxy the local player controls, if it is known.
    pub fn controlled(&self) -> (r: Option<ControlledPlayer>)
        ensures
            r matches Some(c) ==> self.view().controlled == Some(c.entity),
            r is None ==> self.view().controlled is None,
    {
        self.controlled
    }

    /// Handles `PlayerCreate` for connection `client_id` and server entity
    /// `server_entity`, for which the proxy `client_entity` was just spawned.
    pub fn on_player_create(&mut self, client_id: u64, server_entity: u64, client_entity: u64) -> (r: CreateOutcome)
        requires
            old(self).wf(),
        ensures
            final(self).wf(),
            final(self).view() == after_create(old(self).view(), client_id, server_entity, client_entity),
            r == (if create_conflicts(old(self).view(), client_id, server_entity) {
                CreateOutcome::Rejected
            } else {
                CreateOutcome::Created {
                    stale: if old(self).view().lobby.contains_key(client_id) {
                        Some(old(self).view().lobby[client_id].client_entity)
                    } else {
                        None
                    },
                    controlled: client_id == old(self).view().own,
                }
            }),
    {
        proof {
            lemma_create_wf(self.view(), client_id, server_entity, client_entity);
        }
        let mapped: bool = self.mapping.get(&server_entity).is_some();
        let previous: Option<PlayerEntities> = match self.lobby.get_player_entities(&client_id) {
            Some(p) => Some(*p),
            None => None,
        };
        let same: bool = match previous {
            Some(p) => p.server_entity == server_entity,
            None => false,
        };
        if mapped && !same {
            return CreateOutcome::Rejected;
        }
        let stale: Option<u64> = match previous {
            Some(p) => {
                self.mapping.remove(&p.server_entity);
                Some(p.client_entity)
            },
            None => None,
        };
        self.lobby.add_player(&client_id, PlayerEntities { client_entity, server_entity });
        self.mapping.add(server_entity, client_entity);
        let controlled: bool = client_id == self.current.0;
        if controlled {
            self.controlled = Some(ControlledPlayer { entity: client_entity });
        }
        proof {
            assert(self.view().lobby == after_create(old(self).view(), client_id, server_entity, client_entity).lobby);
            assert(self.view().mapping =~= after_create(old(self).view(), client_id, server_entity, client_entity).mapping);
        }
        CreateOutcome::Created { stale, controlled }
    }

    /// Handles `PlayerRemove` for connection `client_id`: returns the proxy to
    /// despawn, or `None`, with nothing changed, where the connection is unknown.
    pub fn on_player_remove(&mut self, client_id: u64) -> (r: Option<u64>)
        requires
            old(self).wf(),
        ensures
            final(self).wf(),
            final(self).view() == after_remove(old(self).view(), client_id),
            r == (if old(self).view().lobby.contains_key(client_id) {
                Some(old(self).view().lobby[client_id].client_entity)
            } else {
                None
            }),
    {
        proof {
            lemma_remove_wf(self.view(), client_id);
        }
        match self.lobby.remove_player(&client_id) {
            Some(p) => {
                self.mapping.remove(&p.server_entity);
                if client_id == self.current.0 {
                    self.controlled = None;
                }
                proof {
                    assert(self.view().lobby =~= after_remove(old(self).view(), client_id).lobby);
                    assert(self.view().mapping =~= after_remove(old(self).view(), client_id).mapping);
                }
                Some(p.client_entity)
            },
            None => {
                proof {
                    assert(self.view().lobby =~= old(self).view().lobby);
                }
                None
            },
        }
    }

    /// The moves a snapshot asks for: each known entity's proxy with its new
    /// position, in order. `None` where the two sequences differ in length; then
    /// nothing moves.
    pub fn on_networked_entities(&self, snapshot: &NetworkedEntities) -> (r: Option<Vec<(u64, Translation)>>)
        ensures
            snapshot.entities@.len() != snapshot.translations@.len() ==> r is None,
            snapshot.entities@.len() == snapshot.translations@.len() ==> (r matches Some(v) && v@
                == snapshot_moves(
                self.view().mapping,
                snapshot.entities@,
                snapshot.translations@,
                snapshot.entities@.len(),
            )),
    {
        if snapshot.entities.len() != snapshot.translations.len() {
            return None;
        }
        let mut moves: Vec<(u64, Translation)> = Vec::new();
        let mut i: usize = 0;
        while i < snapshot.entities.len()
            invariant
                i <= snapshot.entities@.len(),
                snapshot.entities@.len() == snapshot.translations@.len(),
                moves@ == snapshot_moves(
                    self.view().mapping,
                    snapshot.entities@,
                    snapshot.translations@,
                    i as nat,
                ),
            decreases snapshot.entities@.len() - i,
        {
            match self.mapping.get(&snapshot.entities[i]) {
                Some(proxy) => moves.push((*proxy, snapshot.translations[i])),
                None => {},
            }
            i = i + 1;
        }
        Some(moves)
    }
}

/// The connection id a client derives from the time its session started, in
/// milliseconds since the epoch: the low 64 bits.
pub fn client_id_from_millis(millis: u128) -> (r: u64)
    ensures
        r == millis % 0x1_0000_0000_0000_0000,
{
    (millis % 0x1_0000_0000_0000_0000) as u64
}

/// A client's session settings.
#[derive(Clone, Copy, Debug, PartialEq, Eq, Structural)]
pub struct ClientPlugin {
    pub client_id: CurrentClientId,
    pub protocol_id: u64,
}

impl ClientPlugin {
    /// The settings of a session that started `millis` milliseconds after the epoch.
    pub fn new(millis: u128) -> (r: ClientPlugin)
        ensures
            r.client_id.0 == millis % 0x1_0000_0000_0000_0000,
            r.protocol_id == PROTOCOL_ID,
    {
        ClientPlugin { client_id: CurrentClientId(client_id_from_millis(millis)), protocol_id: PROTOCOL_ID }
    }

    /// The connection settings, shared with the server.
    pub fn connection_config(&self) -> (r: ConnectionSpec)
        ensures
            r.available_bytes_per_tick == crate::channel::BYTES_PER_TICK,
            r.client_channels_config@ == crate::channel::client_channels(),
            r.server_channels_config@ == crate::channel::server_channels(),
    {
        connection_config()
    }

    /// An empty mirror for this client.
    pub fn replica(&self) -> (r: ClientReplica)
        ensures
            r.wf(),
            r.view() == (ReplicaModel {
                own: self.client_id.0,
                lobby: Map::empty(),
                mapping: Map::empty(),
                controlled: None,
            }),
    {
        ClientReplica::new(self.client_id)
    }
}

} // verus!
