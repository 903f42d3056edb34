//! The server's lobby: which connection owns which world entity, and the messages
//! the server sends when players come and go.
use crate::channel::{connection_config, ConnectionSpec};
use crate::event::GameEvents;
use crate::wire::{MessageModel, ServerMessages, Translation};
use crate::PROTOCOL_ID;
use vstd::prelude::*;

verus! {

/// One connected player: its connection, its world entity and the position it was
/// announced at.
#[derive(Clone, Copy, Debug, PartialEq, Eq, Structural)]
pub struct PlayerRecord {
    pub id: u64,
    pub entity: u64,
    pub translation: Translation,
}

/// A derived game event, handed from connection handling to the lobby.
#[derive(Clone, Copy, Debug, PartialEq, Eq, Structural)]
pub enum GameEvent {
    /// A player was spawned for a new connection.
    PlayerCreated { client_id: u64, entity: u64, position: Translation },
    /// A connection went away.
    PlayerRemoved { client_id: u64 },
}

/// Who a message goes to.
#[derive(Clone, Copy, Debug, PartialEq, Eq, Structural)]
pub enum Recipient {
    /// One client.
    Client(u64),
    /// Every connected client.
    Broadcast,
}

/// A message to send on the server's reliable ordered channel.
#[derive(Clone, Debug, PartialEq, Eq)]
pub struct Outgoing {
    pub recipient: Recipient,
    pub message: ServerMessages,
}

impl View for Outgoing {
    type V = (Recipient, MessageModel);

    open spec fn view(&self) -> (Recipient, MessageModel) {
        (self.recipient, self.message@)
    }
}

/// What the caller has to do after the lobby handled an event: destroy an
/// entity, then send the messages in order.
#[derive(Clone, Debug, PartialEq, Eq)]
pub struct ServerEffects {
    pub despawn: Option<u64>,
    pub outgoing: Vec<Outgoing>,
}

/// The connected players, in the order they joined; no connection twice.
#[derive(Clone, Debug)]
pub struct ServerLobby {
    players: Vec<PlayerRecord>,
}

pub open spec fn unique_ids(s: Seq<PlayerRecord>) -> bool {
    forall|i: int, j: int| 0 <= i < j < s.len() ==> s[i].id != s[j].id
}

/// `s` without the record of connection `id`.
pub open spec fn without(s: Seq<PlayerRecord>, id: u64) -> Seq<PlayerRecord>
    decreases s.len(),
{
    if s.len() == 0 {
        s
    } else if s.last().id == id {
        without(s.drop_last(), id)
    } else {
        without(s.drop_last(), id).push(s.last())
    }
}

/// The record of connection `id` in `s`, if any.
pub open spec fn lookup(s: Seq<PlayerRecord>, id: u64) -> Option<PlayerRecord>
    decreases s.len(),
{
    if s.len() == 0 {
        None
    } else if s.last().id == id {
        Some(s.last())
    } else {
        lookup(s.drop_last(), id)
    }
}

pub open spec fn create_message(p: PlayerRecord) -> MessageModel {
    MessageModel::PlayerCreate { entity: p.entity, id: p.id, translation: p.translation }
}

/// One `PlayerCreate` to `to` for each record of `s`, in order.
pub open spec fn catch_up(s: Seq<PlayerRecord>, to: u64) -> Seq<(Recipient, MessageModel)> {
    s.map_values(|p: PlayerRecord| (Recipient::Client(to), create_message(p)))
}

/// The lobby after `event`.
pub open spec fn lobby_after(s: Seq<PlayerRecord>, event: GameEvent) -> Seq<PlayerRecord> {
    match event {
        GameEvent::PlayerCreated { client_id, entity, position } => without(s, client_id).push(
            PlayerRecord { id: client_id, entity, translation: position },
        ),
        GameEvent::PlayerRemoved { client_id } => without(s, client_id),
    }
}

/// The entity to destroy after `event`: the one the connection owned before.
pub open spec fn despawn_after(s: Seq<PlayerRecord>, event: GameEvent) -> Option<u64> {
    let id = match event {
        GameEvent::PlayerCreated { client_id, .. } => client_id,
        GameEvent::PlayerRemoved { client_id } => client_id,
    };
    match lookup(s, id) {
        Some(p) => Some(p.entity),
        None => None,
    }
}

/// The messages sent for `event`: a newcomer first hears of every other player,
/// then everyone hears of the newcomer; a removal is broadcast only where the
/// connection was known.
pub open spec fn messages_after(s: Seq<PlayerRecord>, event: GameEvent) -> Seq<(Recipient, MessageModel)> {
    match event {
        GameEvent::PlayerCreated { client_id, entity, position } => catch_up(
            without(s, client_id),
            client_id,
        ).push(
            (
                Recipient::Broadcast,
                create_message(PlayerRecord { id: client_id, entity, translation: position }),
            ),
        ),
        GameEvent::PlayerRemoved { client_id } => if lookup(s, client_id) is Some {
            seq![(Recipient::Broadcast, MessageModel::PlayerRemove { id: client_id })]
        } else {
            Seq::empty()
        },
    }
}

pub proof fn lemma_without_subset(s: Seq<PlayerRecord>, id: u64)
    ensures
        without(s, id).len() <= s.len(),
        forall|k: int|
            0 <= k < without(s, id).len() ==> (#[trigger] without(s, id)[k]).id != id && s.contains(
                without(s, id)[k],
            ),
    decreases s.len(),
{
    if s.len() > 0 {
        let init = s.drop_last();
        lemma_without_subset(init, id);
        let wi = without(init, id);
        assert forall|k: int| 0 <= k < without(s, id).len() implies (#[trigger] without(s, id)[k]).id
            != id && s.contains(without(s, id)[k]) by {
            if k < wi.len() {
                let w = wi[k];
                assert(without(s, id)[k] == w);
                assert(init.contains(w));
                let j = choose|j: int| 0 <= j < init.len() && init[j] == w;
                assert(s[j] == w);
            } else {
                assert(s[s.len() - 1] == s.last());
            }
        }
    }
}

pub proof fn lemma_without_unique(s: Seq<PlayerRecord>, id: u64)
    requires
        unique_ids(s),
    ensures
        unique_ids(without(s, id)),
    decreases s.len(),
{
    if s.len() > 0 {
        let init = s.drop_last();
        assert(unique_ids(init));
        lemma_without_unique(init, id);
        lemma_without_subset(init, id);
        let w = without(init, id);
        if s.last().id != id {
            assert forall|i: int, j: int| 0 <= i < j < w.push(s.last()).len() implies w.push(
                s.last(),
            )[i].id != w.push(s.last())[j].id by {
                if j == w.len() {
                    assert(without(init, id)[i] == w[i]);
                    assert(w[i].id != id && init.contains(w[i]));
                    let k = choose|k: int| 0 <= k < init.len() && init[k] == w[i];
                    assert(s[k] == w[i]);
                    assert(s[s.len() - 1] == s.last());
                }
            }
        }
    }
}

/// Without an entry for `id`, removing it changes nothing.
pub proof fn lemma_without_absent(s: Seq<PlayerRecord>, id: u64)
    requires
        lookup(s, id) is None,
    ensures
        without(s, id) == s,
    decreases s.len(),
{
    if s.len() > 0 {
        lemma_without_absent(s.drop_last(), id);
        assert(s.drop_last().push(s.last()) =~= s);
    }
}

pub proof fn lemma_lookup_some(s: Seq<PlayerRecord>, id: u64)
    ensures
        lookup(s, id) matches Some(p) ==> p.id == id && s.contains(p),
        lookup(s, id) is None ==> forall|k: int| 0 <= k < s.len() ==> #[trigger] s[k].id != id,
    decreases s.len(),
{
    if s.len() > 0 {
        lemma_lookup_some(s.drop_last(), id);
        assert(s[s.len() - 1] == s.last());
        if let Some(p) = lookup(s.drop_last(), id) {
            if s.last().id != id {
                let j = choose|j: int| 0 <= j < s.drop_last().len() && s.drop_last()[j] == p;
                assert(s[j] == p);
            }
        }
        if lookup(s, id) is None {
            assert forall|k: int| 0 <= k < s.len() implies #[trigger] s[k].id != id by {
                if k < s.len() - 1 {
                    assert(s[k] == s.drop_last()[k]);
                }
            }
        }
    }
}

impl ServerLobby {
    pub closed spec fn view(&self) -> Seq<PlayerRecord> {
        self.players@
    }

    pub closed spec fn wf(&self) -> bool {
        unique_ids(self.players@)
    }

    /// An empty lobby.
    pub fn new() -> (r: ServerLobby)
        ensures
            r.wf(),
            r.view() == Seq::<PlayerRecord>::empty(),
    {
        ServerLobby { players: Vec::new() }
    }

    /// The players, in the order they joined.
    pub fn players(&self) -> (r: Vec<PlayerRecord>)
        ensures
            r@ == self.view(),
    {
        self.players.clone()
    }

    fn retain_others(&mut self, client_id: u64)
        ensures
            final(self).players@ == without(old(self).players@, client_id),
    {
        let mut kept: Vec<PlayerRecord> = Vec::new();
        let mut i: usize = 0;
        while i < self.players.len()
            invariant
                i <= self.players@.len(),
                kept@ == without(self.players@.subrange(0, i as int), client_id),
            decreases self.players@.len() - i,
        {
            let p: PlayerRecord = self.players[i];
            if p.id != client_id {
                kept.push(p);
            }
            i = i + 1;
            assert(self.players@.subrange(0, i as int).drop_last() =~= self.players@.subrange(
                0,
                i - 1,
            ));
        }
        assert(self.players@.subrange(0, i as int) =~= self.players@);
        self.players = kept;
    }

    /// Records that connection `client_id` owns `entity`, announced at `translation`;
    /// a record it had before is dropped.
    pub fn add_player(&mut self, client_id: &u64, entity: u64, translation: Translation)
        requires
            old(self).wf(),
        ensures
            final(self).wf(),
            final(self).view() == without(old(self).view(), *client_id).push(
                PlayerRecord { id: *client_id, entity, translation },
            ),
    {
        self.retain_others(*client_id);
        proof {
            lemma_without_unique(old(self).players@, *client_id);
            lemma_without_subset(old(self).players@, *client_id);
        }
        self.players.push(PlayerRecord { id: *client_id, entity, translation });
    }

    /// Drops the record of connection `client_id`, if any.
    pub fn remove_player(&mut self, client_id: &u64)
        requires
            old(self).wf(),
        ensures
            final(self).wf(),
            final(self).view() == without(old(self).view(), *client_id),
    {
        self.retain_others(*client_id);
        proof {
            lemma_without_unique(old(self).players@, *client_id);
        }
    }

    /// The record of connection `client_id`, if any.
    pub fn get_player(&self, client_id: &u64) -> (r: Option<PlayerRecord>)
        ensures
            r == lookup(self.view(), *client_id),
    {
        let mut i: usize = self.players.len();
        assert(self.players@.subrange(0, i as int) =~= self.players@);
        while i > 0
            invariant
                i <= self.players@.len(),
                lookup(self.players@, *client_id) == lookup(self.players@.subrange(0, i as int), *client_id),
            decreases i,
        {
            let p: PlayerRecord = self.players[i - 1];
            assert(self.players@.subrange(0, i as int).drop_last() =~= self.players@.subrange(
                0,
                i - 1,
            ));
            if p.id == *client_id {
                return Some(p);
            }
            i = i - 1;
        }
        None
    }
}

/// Applies a game event to the lobby and says what to destroy and send.
pub fn on_server_event(lobby: &mut ServerLobby, event: &GameEvent) -> (r: ServerEffects)
    requires
        old(lobby).wf(),
    ensures
        final(lobby).wf(),
        final(lobby).view() == lobby_after(old(lobby).view(), *event),
        r.despawn == despawn_after(old(lobby).view(), *event),
        r.outgoing@.map_values(|o: Outgoing| o@) == messages_after(old(lobby).view(), *event),
{
    match event {
        GameEvent::PlayerCreated { client_id, entity, position } => {
            let previous: Option<PlayerRecord> = lobby.get_player(client_id);
            lobby.remove_player(client_id);
            let mut outgoing: Vec<Outgoing> = Vec::new();
            let mut i: usize = 0;
            while i < lobby.players.len()
                invariant
                    i <= lobby.players@.len(),
                    outgoing@.map_values(|o: Outgoing| o@) == catch_up(
                        lobby.players@.subrange(0, i as int),
                        *client_id,
                    ),
                decreases lobby.players@.len() - i,
            {
                let p: PlayerRecord = lobby.players[i];
                let ghost prev = outgoing@;
                let o = Outgoing {
                    recipient: Recipient::Client(*client_id),
                    message: ServerMessages::PlayerCreate {
                        entity: p.entity,
                        id: p.id,
                        translation: p.translation,
                    },
                };
                assert(o@ == (Recipient::Client(*client_id), create_message(p)));
                outgoing.push(o);
                i = i + 1;
                assert(outgoing@.map_values(|o: Outgoing| o@) =~= prev.map_values(|o: Outgoing| o@).push(
                    (Recipient::Client(*client_id), create_message(p)),
                ));
                assert(lobby.players@.subrange(0, i as int) =~= lobby.players@.subrange(0, i - 1).push(p));
                assert(outgoing@.map_values(|o: Outgoing| o@) =~= catch_up(
                    lobby.players@.subrange(0, i as int),
                    *client_id,
                ));
            }
            assert(lobby.players@.subrange(0, i as int) =~= lobby.players@);
            let ghost before_broadcast = outgoing@;
            outgoing.push(
                Outgoing {
                    recipient: Recipient::Broadcast,
                    message: ServerMessages::PlayerCreate {
                        entity: *entity,
                        id: *client_id,
                        translation: *position,
                    },
                },
            );
            assert(outgoing@.map_values(|o: Outgoing| o@) =~= before_broadcast.map_values(
                |o: Outgoing| o@,
            ).push(outgoing@.last()@));
            lobby.add_player(client_id, *entity, *position);
            proof {
                let w = without(old(lobby).view(), *client_id);
                lemma_without_subset(old(lobby).view(), *client_id);
                lemma_lookup_none(w, *client_id);
                lemma_without_absent(w, *client_id);
            }
            let despawn: Option<u64> = match previous {
                Some(p) => Some(p.entity),
                None => None,
            };
            ServerEffects { despawn, outgoing }
        },
        GameEvent::PlayerRemoved { client_id } => {
            let previous: Option<PlayerRecord> = lobby.get_player(client_id);
            lobby.remove_player(client_id);
            match previous {
                Some(p) => {
                    let outgoing: Vec<Outgoing> = vec![
                        Outgoing {
                            recipient: Recipient::Broadcast,
                            message: ServerMessages::PlayerRemove { id: *client_id },
                        },
                    ];
                    assert(outgoing@.map_values(|o: Outgoing| o@) =~= messages_after(
                        old(lobby).view(),
                        *event,
                    ));
                    ServerEffects { despawn: Some(p.entity), outgoing }
                },
                None => {
                    let outgoing: Vec<Outgoing> = Vec::new();
                    assert(outgoing@.map_values(|o: Outgoing| o@) =~= messages_after(
                        old(lobby).view(),
                        *event,
                    ));
                    ServerEffects { despawn: None, outgoing }
                },
            }
        },
    }
}

/// A lookup finds nothing where no record has the id.
pub proof fn lemma_lookup_none(s: Seq<PlayerRecord>, id: u64)
    requires
        forall|k: int| 0 <= k < s.len() ==> #[trigger] s[k].id != id,
    ensures
        lookup(s, id) is None,
    decreases s.len(),
{
    if s.len() > 0 {
        assert(s[s.len() - 1] == s.last());
        lemma_lookup_none(s.drop_last(), id);
    }
}

/// The most clients the server accepts at once.
pub const MAX_CLIENTS: usize = 64;

/// The server's session settings.
#[derive(Clone, Copy, Debug, PartialEq, Eq, Structural)]
pub struct ServerPlugin {
    pub max_clients: usize,
    pub protocol_id: u64,
}

impl ServerPlugin {
    /// The settings the server runs with.
    pub fn new() -> (r: ServerPlugin)
        ensures
            r.max_clients == MAX_CLIENTS,
            r.protocol_id == PROTOCOL_ID,
    {
        ServerPlugin { max_clients: MAX_CLIENTS, protocol_id: PROTOCOL_ID }
    }

    /// The connection settings, shared with the clients.
    pub fn connection_config(&self) -> (r: ConnectionSpec)
        ensures
            r.available_bytes_per_tick == crate::channel::BYTES_PER_TICK,
            r.client_channels_config@ == crate::channel::client_channels(),
            r.server_channels_config@ == crate::channel::server_channels(),
    {
        connection_config()
    }
}

/// The lobby after each of `events` in turn.
pub open spec fn lobby_after_all(s: Seq<PlayerRecord>, events: Seq<GameEvent>) -> Seq<PlayerRecord>
    decreases events.len(),
{
    if events.len() == 0 {
        s
    } else {
        lobby_after(lobby_after_all(s, events.drop_last()), events.last())
    }
}

/// The server's game state for one session: the lobby, and the events that wait
/// for the next tick.
#[derive(Clone, Debug)]
pub struct GamePlugin {
    lobby: ServerLobby,
    events: GameEvents,
}

impl GamePlugin {
    pub closed spec fn wf(&self) -> bool {
        self.lobby.wf()
    }

    pub closed spec fn lobby_view(&self) -> Seq<PlayerRecord> {
        self.lobby.view()
    }

    pub closed spec fn pending(&self) -> Seq<GameEvent> {
        self.events.view()
    }

    /// No players, no pending events.
    pub fn new() -> (r: GamePlugin)
        ensures
            r.wf(),
            r.lobby_view() == Seq::<PlayerRecord>::empty(),
            r.pending() == Seq::<GameEvent>::empty(),
    {
        GamePlugin { lobby: ServerLobby::new(), events: GameEvents::new() }
    }

    /// The lobby as it stands.
    pub fn lobby(&self) -> (r: &ServerLobby)
        ensures
            r.view() == self.lobby_view(),
    {
        &self.lobby
    }

    /// A player was spawned as `entity` at `position` for the new connection `client_id`.
    pub fn client_connected(&mut self, client_id: u64, entity: u64, position: Translation)
        ensures
            final(self).wf() == old(self).wf(),
            final(self).lobby_view() == old(self).lobby_view(),
            final(self).pending() == old(self).pending().push(
                GameEvent::PlayerCreated { client_id, entity, position },
            ),
    {
        self.events.write(GameEvent::PlayerCreated { client_id, entity, position });
    }

    /// Connection `client_id` went away.
    pub fn client_disconnected(&mut self, client_id: u64)
        ensures
            final(self).wf() == old(self).wf(),
            final(self).lobby_view() == old(self).lobby_view(),
            final(self).pending() == old(self).pending().push(GameEvent::PlayerRemoved { client_id }),
    {
        self.events.write(GameEvent::PlayerRemoved { client_id });
    }

    /// Applies the pending events to the lobby, oldest first, and returns what each
    /// asks the caller to do, in the same order.
    pub fn update(&mut self) -> (r: Vec<ServerEffects>)
        requires
            old(self).wf(),
        ensures
            final(self).wf(),
            final(self).pending() == Seq::<GameEvent>::empty(),
            final(self).lobby_view() == lobby_after_all(old(self).lobby_view(), old(self).pending()),
            r@.len() == old(self).pending().len(),
            forall|k: int|
                0 <= k < r@.len() ==> {
                    let before = lobby_after_all(
                        old(self).lobby_view(),
                        old(self).pending().take(k),
                    );
                    &&& (#[trigger] r@[k]).despawn == despawn_after(before, old(self).pending()[k])
                    &&& r@[k].outgoing@.map_values(|o: Outgoing| o@) == messages_after(
                        before,
                        old(self).pending()[k],
                    )
                },
    {
        let events: Vec<GameEvent> = self.events.read();
        let ghost start = self.lobby.view();
        let mut effects: Vec<ServerEffects> = Vec::new();
        let mut i: usize = 0;
        assert(events@.take(0) =~= Seq::<GameEvent>::empty());
        while i < events.len()
            invariant
                i <= events@.len(),
                self.lobby.wf(),
                self.events.view() == Seq::<GameEvent>::empty(),
                self.lobby.view() == lobby_after_all(start, events@.take(i as int)),
                effects@.len() == i,
                forall|k: int|
                    0 <= k < i ==> {
                        let before = lobby_after_all(start, events@.take(k));
                        &&& (#[trigger] effects@[k]).despawn == despawn_after(before, events@[k])
                        &&& effects@[k].outgoing@.map_values(|o: Outgoing| o@) == messages_after(
                            before,
                            events@[k],
                        )
                    },
            decreases events@.len() - i,
        {
            let e: GameEvent = events[i];
            let step: ServerEffects = on_server_event(&mut self.lobby, &e);
            effects.push(step);
            i = i + 1;
            assert(events@.take(i as int).drop_last() =~= events@.take(i - 1));
        }
        assert(events@.take(i as int) =~= events@);
        effects
    }
}

/// The connection an event is about.
pub open spec fn event_client(e: GameEvent) -> u64 {
    match e {
        GameEvent::PlayerCreated { client_id, .. } => client_id,
        GameEvent::PlayerRemoved { client_id } => client_id,
    }
}

/// How many of `out` reach client `c`: those sent to it and every broadcast.
pub open spec fn count_for(out: Seq<(Recipient, MessageModel)>, c: u64) -> nat
    decreases out.len(),
{
    if out.len() == 0 {
        0
    } else {
        count_for(out.drop_last(), c) + match out.last().0 {
            Recipient::Broadcast => 1nat,
            Recipient::Client(to) => if to == c {
                1nat
            } else {
                0nat
            },
        }
    }
}

/// How many messages client `c` receives while `events` are applied to `s`: those
/// of each event from the one that connects it on, while it is connected.
pub open spec fn received(s: Seq<PlayerRecord>, events: Seq<GameEvent>, c: u64) -> nat
    decreases events.len(),
{
    if events.len() == 0 {
        0
    } else {
        let before = lobby_after_all(s, events.drop_last());
        let e = events.last();
        let connected = lookup(before, c) is Some || (e is PlayerCreated && event_client(e) == c);
        received(s, events.drop_last(), c) + if connected {
            count_for(messages_after(before, e), c)
        } else {
            0nat
        }
    }
}

/// Joins of `n` distinct connections, one after the other.
pub open spec fn distinct_joins(events: Seq<GameEvent>) -> bool {
    &&& forall|k: int| 0 <= k < events.len() ==> #[trigger] events[k] is PlayerCreated
    &&& forall|i: int, j: int|
        0 <= i < j < events.len() ==> event_client(#[trigger] events[i]) != event_client(
            #[trigger] events[j],
        )
}

proof fn lemma_count_catch_up(w: Seq<PlayerRecord>, to: u64, c: u64)
    ensures
        count_for(catch_up(w, to), c) == (if c == to {
            w.len()
        } else {
            0
        }),
    decreases w.len(),
{
    if w.len() > 0 {
        lemma_count_catch_up(w.drop_last(), to, c);
        assert(catch_up(w, to).drop_last() =~= catch_up(w.drop_last(), to));
    }
}

/// After `n` distinct connections have joined an empty lobby one after the other,
/// the lobby holds `n` players, and every one of those clients has received
/// exactly `n` messages: one create for each player, its own included. The
/// `k`-th newcomer is sent `k` creates for the players before it and then one
/// broadcast of itself; every client already there gets that broadcast alone.
pub proof fn lemma_joins_converge(events: Seq<GameEvent>)
    requires
        distinct_joins(events),
    ensures
        lobby_after_all(Seq::empty(), events).len() == events.len(),
        forall|k: int|
            0 <= k < events.len() ==> received(Seq::empty(), events, event_client(#[trigger] events[k]))
                == events.len(),
{
    lemma_joins_invariant(events);
}

proof fn lemma_joins_invariant(events: Seq<GameEvent>)
    requires
        distinct_joins(events),
    ensures
        ({
            let l = lobby_after_all(Seq::empty(), events);
            &&& unique_ids(l)
            &&& l.len() == events.len()
            &&& forall|c: u64|
                #[trigger] lookup(l, c) is Some <==> exists|i: int|
                    0 <= i < events.len() && event_client(#[trigger] events[i]) == c
            &&& forall|k: int|
                0 <= k < events.len() ==> received(
                    Seq::empty(),
                    events,
                    event_client(#[trigger] events[k]),
                ) == events.len()
            &&& forall|c: u64|
                (forall|i: int| 0 <= i < events.len() ==> event_client(#[trigger] events[i]) != c)
                    ==> #[trigger] received(Seq::empty(), events, c) == 0
        }),
    decreases events.len(),
{
    let empty = Seq::<PlayerRecord>::empty();
    if events.len() > 0 {
        let prev = events.drop_last();
        let e = events.last();
        let n = prev.len();
        assert(distinct_joins(prev)) by {
            assert forall|i: int, j: int| 0 <= i < j < prev.len() implies event_client(
                #[trigger] prev[i],
            ) != event_client(#[trigger] prev[j]) by {
                assert(prev[i] == events[i] && prev[j] == events[j]);
            }
            assert forall|k: int| 0 <= k < prev.len() implies #[trigger] prev[k] is PlayerCreated by {
                assert(prev[k] == events[k]);
            }
        }
        lemma_joins_invariant(prev);
        let l = lobby_after_all(empty, prev);
        let id = event_client(e);
        assert(e == events[events.len() - 1]);
        assert(e is PlayerCreated);
        assert(lookup(l, id) is None) by {
            if lookup(l, id) is Some {
                let i = choose|i: int| 0 <= i < prev.len() && event_client(#[trigger] prev[i]) == id;
                assert(prev[i] == events[i]);
            }
        }
        lemma_without_absent(l, id);
        lemma_lookup_some(l, id);
        let l2 = lobby_after_all(empty, events);
        assert(l2 == l.push(l2.last()));
        assert(unique_ids(l2)) by {
            assert forall|i: int, j: int| 0 <= i < j < l2.len() implies l2[i].id != l2[j].id by {
                if j == l.len() {
                    assert(l[i].id != id);
                }
            }
        }
        assert forall|c: u64| #[trigger] lookup(l2, c) is Some <==> exists|i: int|
            0 <= i < events.len() && event_client(#[trigger] events[i]) == c by {
            assert(l2.drop_last() =~= l);
            assert(l2.last().id == id);
            if c != id {
                assert(lookup(l2, c) == lookup(l, c));
            }
            if lookup(l2, c) is Some && c != id {
                assert(lookup(l, c) is Some);
                let i = choose|i: int| 0 <= i < prev.len() && event_client(#[trigger] prev[i]) == c;
                assert(events[i] == prev[i]);
            }
            if c == id {
                assert(event_client(events[events.len() - 1]) == c);
            }
            if c != id && (exists|i: int| 0 <= i < events.len() && event_client(#[trigger] events[i]) == c) {
                let i = choose|i: int| 0 <= i < events.len() && event_client(#[trigger] events[i]) == c;
                assert(i < prev.len());
                assert(prev[i] == events[i]);
            }
        }
        let out = messages_after(l, e);
        let rec = l2.last();
        assert(out == catch_up(l, id).push((Recipient::Broadcast, create_message(rec))));
        assert(out.drop_last() == catch_up(l, id));
        assert forall|c: u64| count_for(out, c) == count_for(catch_up(l, id), c) + 1 by {
        }
        assert forall|k: int| 0 <= k < events.len() implies received(
            empty,
            events,
            event_client(#[trigger] events[k]),
        ) == events.len() by {
            let c = event_client(events[k]);
            lemma_count_catch_up(l, id, c);
            assert(count_for(out, c) == count_for(catch_up(l, id), c) + 1);
            if k < n {
                assert(prev[k] == events[k]);
                assert(c != id);
                assert(lookup(l, c) is Some);
                assert(received(empty, prev, event_client(prev[k])) == n);
                assert(received(empty, events, c) == received(empty, prev, c) + count_for(out, c));
            } else {
                assert(c == id);
                assert forall|i: int| 0 <= i < prev.len() implies event_client(#[trigger] prev[i]) != c by {
                    assert(prev[i] == events[i]);
                }
                assert(received(empty, prev, c) == 0);
                assert(received(empty, events, c) == received(empty, prev, c) + count_for(out, c));
            }
        }
        assert forall|c: u64|
            (forall|i: int| 0 <= i < events.len() ==> event_client(#[trigger] events[i]) != c)
                implies #[trigger] received(empty, events, c) == 0 by {
            assert forall|i: int| 0 <= i < prev.len() implies event_client(#[trigger] prev[i]) != c by {
                assert(prev[i] == events[i]);
            }
            assert(event_client(events[events.len() - 1]) != c);
            if lookup(l, c) is Some {
                let i = choose|i: int| 0 <= i < prev.len() && event_client(#[trigger] prev[i]) == c;
                assert(prev[i] == events[i]);
            }
            assert(received(empty, prev, c) == 0);
            assert(received(empty, events, c) == received(empty, prev, c));
        }
    }
}

} // verus!
