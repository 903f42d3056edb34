use game_core::channel::{
    connection_config, ChannelSpec, ClientChannel, SendKind, ServerChannel, CHANNEL_MEMORY_BYTES,
};

#[test]
fn channel_numbers() {
    assert_eq!(u8::from(ClientChannel::Command), 0);
    assert_eq!(u8::from(ClientChannel::Input), 1);
    assert_eq!(u8::from(ServerChannel::NetworkedEntities), 0);
    assert_eq!(u8::from(ServerChannel::ServerMessages), 1);
}

#[test]
fn client_channel_config() {
    let c = ClientChannel::channel_config();
    assert_eq!(
        c,
        vec![
            ChannelSpec { channel_id: 1, max_memory_usage_bytes: 5 * 1024 * 1024, send_type: SendKind::ReliableOrdered { resend_millis: 0 } },
            ChannelSpec { channel_id: 0, max_memory_usage_bytes: 5 * 1024 * 1024, send_type: SendKind::ReliableOrdered { resend_millis: 0 } },
        ]
    );
}

#[test]
fn server_channel_config() {
    let c = ServerChannel::channel_config();
    assert_eq!(c[0], ChannelSpec { channel_id: 0, max_memory_usage_bytes: CHANNEL_MEMORY_BYTES, send_type: SendKind::Unreliable });
    assert_eq!(c[1], ChannelSpec { channel_id: 1, max_memory_usage_bytes: CHANNEL_MEMORY_BYTES, send_type: SendKind::ReliableOrdered { resend_millis: 200 } });
    assert_eq!(c.len(), 2);
}

#[test]
fn connection_config_shared() {
    let c = connection_config();
    assert_eq!(c.available_bytes_per_tick, 1024 * 1024);
    assert_eq!(c.client_channels_config, ClientChannel::channel_config());
    assert_eq!(c.server_channels_config, ServerChannel::channel_config());
}
