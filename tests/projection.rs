use oshatori::client::projection::{process_event, process_events};
use oshatori::client::{ConnectionState, ConnectionStatus, StateClient};
use oshatori::connection::{AssetEvent, ChannelEvent, ChatEvent, ConnectionEvent, Delivery, StatusEvent, UserEvent};
use oshatori::{Asset, AssetSource, Channel, ChannelType, Message, MessageFragment, MessageStatus, MessageType, Profile};

fn profile(id: &str, name: &str) -> Profile {
    Profile {
        id: Some(id.to_string()),
        username: Some(name.to_string()),
        display_name: None,
        color: None,
        picture: None,
    }
}

fn message(id: &str, text: &str) -> Message {
    Message {
        id: Some(id.to_string()),
        sender_id: Some("u1".to_string()),
        content: vec![MessageFragment::Text(text.to_string())],
        timestamp: 1_700_000_000_000_000_000,
        message_type: MessageType::Normal,
        status: MessageStatus::Sent,
    }
}

fn new_channel(id: &str) -> ConnectionEvent {
    ConnectionEvent::Channel {
        event: ChannelEvent::New {
            channel: Channel { id: id.to_string(), name: None, channel_type: ChannelType::Group },
        },
    }
}

fn chat(channel: &str, id: &str, text: &str) -> ConnectionEvent {
    ConnectionEvent::Chat {
        event: ChatEvent::New { channel_id: Some(channel.to_string()), message: message(id, text) },
    }
}

fn sample_events() -> Vec<ConnectionEvent> {
    vec![
        new_channel("general"),
        ConnectionEvent::Channel { event: ChannelEvent::Switch { channel_id: "general".to_string() } },
        chat("general", "m1", "one"),
        chat("general", "m2", "two"),
        ConnectionEvent::Chat {
            event: ChatEvent::Update {
                channel_id: Some("general".to_string()),
                message_id: "m1".to_string(),
                new_message: message("m1", "edited"),
            },
        },
        ConnectionEvent::User { event: UserEvent::New { channel_id: None, user: profile("u1", "alice") } },
        ConnectionEvent::Status { event: StatusEvent::Connected { artifact: None } },
    ]
}

#[test]
fn batch_and_stepwise_application_agree() {
    let mut stepwise = ConnectionState::new("c".to_string(), "mock".to_string());
    for e in sample_events() {
        process_event(&mut stepwise, e);
    }
    let mut batch = ConnectionState::new("c".to_string(), "mock".to_string());
    process_events(&mut batch, sample_events());

    assert_eq!(stepwise.status, batch.status);
    assert_eq!(stepwise.current_channel, batch.current_channel);
    assert_eq!(stepwise.channels.len(), batch.channels.len());
    assert_eq!(stepwise.global_users.len(), batch.global_users.len());
    let a = &stepwise.channels.get("general").unwrap().messages;
    let b = &batch.channels.get("general").unwrap().messages;
    assert_eq!(a.len(), 2);
    assert_eq!(a.len(), b.len());
    assert_eq!(a[0].content, vec![MessageFragment::Text("edited".to_string())]);
    assert_eq!(a[0].content, b[0].content);
    assert_eq!(a[1].id, b[1].id);
}

#[test]
fn join_twice_is_join_once() {
    let mut client = StateClient::new();
    let id = client.track("mock");
    let join = || ConnectionEvent::Channel { event: ChannelEvent::Join { channel_id: "lobby".to_string() } };
    client.process(&id, join());
    client.process(&id, chat("lobby", "m1", "hi"));
    client.process(&id, join());
    let state = client.get_connection(&id).unwrap();
    assert_eq!(state.channels.len(), 1);
    assert_eq!(client.get_messages(&id, "lobby").len(), 1);
    assert_eq!(client.get_channel(&id, "lobby").unwrap().channel.name, None);
}

#[test]
fn clearing_a_user_list_twice_is_clearing_once() {
    let mut client = StateClient::new();
    let id = client.track("mock");
    client.process(
        &id,
        ConnectionEvent::User { event: UserEvent::New { channel_id: Some("g".to_string()), user: profile("u1", "a") } },
    );
    let clear = || ConnectionEvent::User { event: UserEvent::ClearList { channel_id: Some("g".to_string()) } };
    client.process(&id, clear());
    assert_eq!(client.get_channel(&id, "g").unwrap().users.len(), 0);
    client.process(&id, clear());
    assert_eq!(client.get_channel(&id, "g").unwrap().users.len(), 0);
    assert_eq!(client.get_connection(&id).unwrap().channels.len(), 1);
}

#[test]
fn tracked_projection_starts_empty() {
    let mut client = StateClient::new();
    let id = client.track("mock");
    assert_eq!(id.len(), 36);
    let state = client.get_connection(&id).unwrap();
    assert_eq!(state.status, ConnectionStatus::Disconnected);
    assert_eq!(state.channels.len(), 0);
    assert_eq!(state.global_users.len(), 0);
    assert_eq!(state.global_assets.len(), 0);
    assert_eq!(state.current_channel, None);
    assert_eq!(state.protocol_name, "mock");
    assert_eq!(state.connection_id, id);
}

#[test]
fn switch_after_new_channel_sets_current() {
    let mut client = StateClient::new();
    let id = client.track("mock");
    client.process(&id, new_channel("general"));
    client.process(&id, ConnectionEvent::Channel { event: ChannelEvent::Switch { channel_id: "general".to_string() } });
    assert_eq!(client.get_connection(&id).unwrap().current_channel, Some("general".to_string()));
}

#[test]
fn scoped_user_creates_channel_and_resolves() {
    let mut client = StateClient::new();
    let id = client.track("mock");
    client.process(
        &id,
        ConnectionEvent::User {
            event: UserEvent::New { channel_id: Some("general".to_string()), user: profile("u1", "alice") },
        },
    );
    assert_eq!(client.get_user(&id, "u1").unwrap().username, Some("alice".to_string()));
    assert_eq!(client.get_channel(&id, "general").unwrap().users.len(), 1);
    assert!(client.get_user(&id, "u2").is_none());
}

#[test]
fn removed_message_is_gone() {
    let mut client = StateClient::new();
    let id = client.track("mock");
    client.process(&id, chat("general", "m1", "hello"));
    client.process(
        &id,
        ConnectionEvent::Chat {
            event: ChatEvent::Remove { channel_id: Some("general".to_string()), message_id: "m1".to_string() },
        },
    );
    assert!(client.get_messages(&id, "general").is_empty());
}

#[test]
fn global_scope_leaves_channels_alone() {
    let mut client = StateClient::new();
    let id = client.track("mock");
    client.process(&id, chat("general", "m1", "hello"));
    client.process(&id, ConnectionEvent::User { event: UserEvent::New { channel_id: None, user: profile("u9", "zed") } });
    client.process(&id, ConnectionEvent::Chat { event: ChatEvent::New { channel_id: None, message: message("m2", "x") } });
    client.process(&id, ConnectionEvent::Channel { event: ChannelEvent::Wipe { channel_id: None } });
    let state = client.get_connection(&id).unwrap();
    assert_eq!(state.global_users.len(), 1);
    assert_eq!(state.channels.len(), 1);
    assert_eq!(client.get_channel(&id, "general").unwrap().users.len(), 0);
    assert_eq!(client.get_messages(&id, "general").len(), 1);
    assert_eq!(client.get_user(&id, "u9").unwrap().username, Some("zed".to_string()));
}

#[test]
fn unknown_ids_change_nothing() {
    let mut client = StateClient::new();
    let id = client.track("mock");
    client.process(&id, chat("general", "m1", "hello"));
    client.process(
        &id,
        ConnectionEvent::Chat {
            event: ChatEvent::Update {
                channel_id: Some("general".to_string()),
                message_id: "nope".to_string(),
                new_message: message("nope", "x"),
            },
        },
    );
    client.process(
        &id,
        ConnectionEvent::Chat {
            event: ChatEvent::Remove { channel_id: Some("elsewhere".to_string()), message_id: "m1".to_string() },
        },
    );
    client.process("not-a-connection", chat("general", "m2", "lost"));
    let msgs = client.get_messages(&id, "general");
    assert_eq!(msgs.len(), 1);
    assert_eq!(msgs[0].content, vec![MessageFragment::Text("hello".to_string())]);
    assert!(client.get_channel(&id, "elsewhere").is_none());
    assert!(client.get_messages("not-a-connection", "general").is_empty());
}

#[test]
fn assets_by_scope_and_id() {
    let mut client = StateClient::new();
    let id = client.track("mock");
    let emote = |aid: Option<&str>| Asset::Emote {
        id: aid.map(|s| s.to_string()),
        pattern: ":(?:x):".to_string(),
        src: "https://e/x.png".to_string(),
        source: AssetSource::User,
    };
    client.process(&id, ConnectionEvent::Asset { event: AssetEvent::New { channel_id: None, asset: emote(Some("x")) } });
    client.process(&id, ConnectionEvent::Asset { event: AssetEvent::New { channel_id: None, asset: emote(None) } });
    client.process(
        &id,
        ConnectionEvent::Asset { event: AssetEvent::New { channel_id: Some("g".to_string()), asset: emote(Some("y")) } },
    );
    assert_eq!(client.get_assets(&id, None).len(), 2);
    assert_eq!(client.get_assets(&id, Some("g")).len(), 1);
    assert!(client.get_assets(&id, Some("h")).is_empty());
    client.process(
        &id,
        ConnectionEvent::Asset { event: AssetEvent::Remove { channel_id: None, asset_id: "x".to_string() } },
    );
    assert_eq!(client.get_assets(&id, None).len(), 1);
    client.process(&id, ConnectionEvent::Asset { event: AssetEvent::ClearList { channel_id: Some("g".to_string()) } });
    assert!(client.get_assets(&id, Some("g")).is_empty());
}

#[test]
fn leave_kick_and_identify() {
    let mut client = StateClient::new();
    let id = client.track("mock");
    client.process(&id, ConnectionEvent::Channel { event: ChannelEvent::Switch { channel_id: "a".to_string() } });
    client.process(&id, ConnectionEvent::Channel { event: ChannelEvent::Leave { channel_id: "b".to_string() } });
    assert_eq!(client.get_connection(&id).unwrap().current_channel, Some("a".to_string()));
    client.process(&id, ConnectionEvent::Channel { event: ChannelEvent::Leave { channel_id: "a".to_string() } });
    assert_eq!(client.get_connection(&id).unwrap().current_channel, None);
    client.process(&id, ConnectionEvent::Channel { event: ChannelEvent::Switch { channel_id: "a".to_string() } });
    client.process(
        &id,
        ConnectionEvent::Channel { event: ChannelEvent::Kick { channel_id: None, reason: None, ban: false } },
    );
    assert_eq!(client.get_connection(&id).unwrap().current_channel, None);
    client.process(&id, ConnectionEvent::User { event: UserEvent::Identify { user_id: "me".to_string() } });
    assert_eq!(client.get_connection(&id).unwrap().current_user_id, Some("me".to_string()));
    client.process(&id, new_channel("a"));
    client.process(&id, ConnectionEvent::Channel { event: ChannelEvent::ClearList });
    assert_eq!(client.get_connection(&id).unwrap().channels.len(), 0);
}

#[test]
fn defaults_are_empty() {
    let p = Profile::default();
    assert!(p.id.is_none() && p.username.is_none() && p.picture.is_none());
    assert_eq!(ConnectionStatus::default(), ConnectionStatus::Disconnected);
    let client: StateClient<oshatori::client::InMemoryStorage> = StateClient::default();
    assert!(client.list_connections().is_empty());
}

#[test]
fn processor_passes_lag_and_stops_on_close() {
    let mut client = StateClient::new();
    let id = client.track("mock");
    assert!(client.absorb(&id, Delivery::Lagged(3)));
    assert!(client.absorb(&id, Delivery::Event(ConnectionEvent::Status { event: StatusEvent::Connected { artifact: None } })));
    assert!(!client.absorb(&id, Delivery::Closed));
    assert_eq!(client.get_connection(&id).unwrap().status, ConnectionStatus::Connected);
}

#[test]
fn stream_matches_batch_and_skips_lags() {
    let mut streamed = StateClient::new();
    let id = streamed.track("mock");
    let mut deliveries: Vec<Delivery> = sample_events().into_iter().map(Delivery::Event).collect();
    deliveries.insert(3, Delivery::Lagged(2));
    assert!(streamed.absorb_all(&id, deliveries));

    let mut batch = ConnectionState::new(id.clone(), "mock".to_string());
    process_events(&mut batch, sample_events());
    let s = streamed.get_connection(&id).unwrap();
    assert_eq!(s.status, batch.status);
    assert_eq!(s.current_channel, batch.current_channel);
    assert_eq!(s.global_users.len(), batch.global_users.len());
    let a = &s.channels.get("general").unwrap().messages;
    let b = &batch.channels.get("general").unwrap().messages;
    assert_eq!(a.len(), b.len());
    assert_eq!(a[0].content, b[0].content);

    let ended = vec![Delivery::Closed, Delivery::Event(chat("general", "m9", "late"))];
    assert!(!streamed.absorb_all(&id, ended));
    assert_eq!(streamed.get_messages(&id, "general").len(), 2);
}
