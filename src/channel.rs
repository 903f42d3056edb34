//! Channels: numbered logical pipes with a fixed reliability class. Their numbers
//! and classes are part of the protocol and must match on both sides.
use vstd::prelude::*;

verus! {

/// Memory ceiling of each channel, in bytes.
pub const CHANNEL_MEMORY_BYTES: usize = 5 * 1024 * 1024;

/// Bandwidth allowed per tick, in bytes.
pub const BYTES_PER_TICK: u64 = 1024 * 1024;

/// Delay before an unacknowledged server message is sent again, in milliseconds.
pub const SERVER_RESEND_MILLIS: u64 = 200;

/// Channels on which a client sends to the server.
#[derive(Clone, Copy, Debug, PartialEq, Eq, Structural)]
pub enum ClientChannel {
    /// Player input, sent often.
    Input,
    /// One-off commands and requests.
    Command,
}

/// Channels on which the server sends to its clients.
#[derive(Clone, Copy, Debug, PartialEq, Eq, Structural)]
pub enum ServerChannel {
    /// Lifecycle messages: players created and removed.
    ServerMessages,
    /// Position snapshots.
    NetworkedEntities,
}

/// How a channel delivers.
#[derive(Clone, Copy, Debug, PartialEq, Eq, Structural)]
pub enum SendKind {
    /// In order, sent again until acknowledged, after `resend_millis`.
    ReliableOrdered { resend_millis: u64 },
    /// Best effort, never sent again.
    Unreliable,
}

/// The settings of one channel.
#[derive(Clone, Copy, Debug, PartialEq, Eq, Structural)]
pub struct ChannelSpec {
    pub channel_id: u8,
    pub max_memory_usage_bytes: usize,
    pub send_type: SendKind,
}

/// The settings of a connection, the same on both sides.
#[derive(Clone, Debug, PartialEq, Eq)]
pub struct ConnectionSpec {
    pub available_bytes_per_tick: u64,
    pub client_channels_config: Vec<ChannelSpec>,
    pub server_channels_config: Vec<ChannelSpec>,
}

pub open spec fn client_channel_number(c: ClientChannel) -> u8 {
    match c {
        ClientChannel::Command => 0,
        ClientChannel::Input => 1,
    }
}

pub open spec fn server_channel_number(c: ServerChannel) -> u8 {
    match c {
        ServerChannel::NetworkedEntities => 0,
        ServerChannel::ServerMessages => 1,
    }
}

impl From<ClientChannel> for u8 {
    fn from(channel: ClientChannel) -> (r: u8) {
        match channel {
            ClientChannel::Command => 0,
            ClientChannel::Input => 1,
        }
    }
}

impl vstd::std_specs::convert::FromSpecImpl<ClientChannel> for u8 {
    open spec fn obeys_from_spec() -> bool {
        true
    }

    open spec fn from_spec(channel: ClientChannel) -> u8 {
        client_channel_number(channel)
    }
}

impl From<ServerChannel> for u8 {
    fn from(channel: ServerChannel) -> (r: u8) {
        match channel {
            ServerChannel::NetworkedEntities => 0,
            ServerChannel::ServerMessages => 1,
        }
    }
}

impl vstd::std_specs::convert::FromSpecImpl<ServerChannel> for u8 {
    open spec fn obeys_from_spec() -> bool {
        true
    }

    open spec fn from_spec(channel: ServerChannel) -> u8 {
        server_channel_number(channel)
    }
}

pub open spec fn client_channels() -> Seq<ChannelSpec> {
    seq![
        ChannelSpec {
            channel_id: client_channel_number(ClientChannel::Input),
            max_memory_usage_bytes: CHANNEL_MEMORY_BYTES,
            send_type: SendKind::ReliableOrdered { resend_millis: 0 },
        },
        ChannelSpec {
            channel_id: client_channel_number(ClientChannel::Command),
            max_memory_usage_bytes: CHANNEL_MEMORY_BYTES,
            send_type: SendKind::ReliableOrdered { resend_millis: 0 },
        },
    ]
}

pub open spec fn server_channels() -> Seq<ChannelSpec> {
    seq![
        ChannelSpec {
            channel_id: server_channel_number(ServerChannel::NetworkedEntities),
            max_memory_usage_bytes: CHANNEL_MEMORY_BYTES,
            send_type: SendKind::Unreliable,
        },
        ChannelSpec {
            channel_id: server_channel_number(ServerChannel::ServerMessages),
            max_memory_usage_bytes: CHANNEL_MEMORY_BYTES,
            send_type: SendKind::ReliableOrdered { resend_millis: SERVER_RESEND_MILLIS },
        },
    ]
}

impl ClientChannel {
    /// The channels a client sends on: both reliable and ordered, resent at once.
    pub fn channel_config() -> (r: Vec<ChannelSpec>)
        ensures
            r@ == client_channels(),
    {
        let v: Vec<ChannelSpec> = vec![
            ChannelSpec {
                channel_id: u8::from(ClientChannel::Input),
                max_memory_usage_bytes: CHANNEL_MEMORY_BYTES,
                send_type: SendKind::ReliableOrdered { resend_millis: 0 },
            },
            ChannelSpec {
                channel_id: u8::from(ClientChannel::Command),
                max_memory_usage_bytes: CHANNEL_MEMORY_BYTES,
                send_type: SendKind::ReliableOrdered { resend_millis: 0 },
            },
        ];
        assert(v@ =~= client_channels());
        v
    }
}

impl ServerChannel {
    /// The channels the server sends on: snapshots unreliable, lifecycle messages
    /// reliable and ordered.
    pub fn channel_config() -> (r: Vec<ChannelSpec>)
        ensures
            r@ == server_channels(),
    {
        let v: Vec<ChannelSpec> = vec![
            ChannelSpec {
                channel_id: u8::from(ServerChannel::NetworkedEntities),
                max_memory_usage_bytes: CHANNEL_MEMORY_BYTES,
                send_type: SendKind::Unreliable,
            },
            ChannelSpec {
                channel_id: u8::from(ServerChannel::ServerMessages),
                max_memory_usage_bytes: CHANNEL_MEMORY_BYTES,
                send_type: SendKind::ReliableOrdered { resend_millis: SERVER_RESEND_MILLIS },
            },
        ];
        assert(v@ =~= server_channels());
        v
    }
}

/// The connection settings both sides use.
pub fn connection_config() -> (r: ConnectionSpec)
    ensures
        r.available_bytes_per_tick == BYTES_PER_TICK,
        r.client_channels_config@ == client_channels(),
        r.server_channels_config@ == server_channels(),
{
    ConnectionSpec {
        available_bytes_per_tick: BYTES_PER_TICK,
        client_channels_config: ClientChannel::channel_config(),
        server_channels_config: ServerChannel::channel_config(),
    }
}

} // verus!
