use oshatori::connection::reader::{events_for_packet, ReaderConfig, ReaderState, WirePacket, WireUser};
use oshatori::connection::{AssetEvent, ChannelEvent, ChatEvent, ConnectionEvent, StatusEvent, UserEvent};
use oshatori::{Asset, AssetSource, MessageFragment, MessageType};

fn user(id: &str) -> WireUser {
    WireUser { user_id: id.to_string(), username: format!("name{id}"), color: Some([1, 2, 3, 255]) }
}

fn emote(id: &str) -> Asset {
    Asset::Emote {
        id: Some(id.to_string()),
        pattern: format!(":(?:{id}):"),
        src: format!("https://e/{id}.png"),
        source: AssetSource::Server,
    }
}

fn config() -> ReaderConfig {
    ReaderConfig { pfp_url: Some("https://pics/{uid}.png".to_string()), assets: vec![emote("a"), emote("b")] }
}

fn kind(e: &ConnectionEvent) -> String {
    match e {
        ConnectionEvent::Status { event: StatusEvent::Connected { .. } } => "connected".into(),
        ConnectionEvent::Status { event: StatusEvent::Disconnected { .. } } => "disconnected".into(),
        ConnectionEvent::Status { event: StatusEvent::Ping { .. } } => "ping".into(),
        ConnectionEvent::Channel { event: ChannelEvent::New { .. } } => "channel-new".into(),
        ConnectionEvent::Channel { event: ChannelEvent::Join { .. } } => "join".into(),
        ConnectionEvent::Channel { event: ChannelEvent::Switch { .. } } => "switch".into(),
        ConnectionEvent::Channel { event: ChannelEvent::Wipe { .. } } => "wipe".into(),
        ConnectionEvent::Channel { event: ChannelEvent::ClearList } => "channel-clear".into(),
        ConnectionEvent::User { event: UserEvent::New { .. } } => "user-new".into(),
        ConnectionEvent::User { event: UserEvent::Identify { .. } } => "identify".into(),
        ConnectionEvent::User { event: UserEvent::ClearList { .. } } => "user-clear".into(),
        ConnectionEvent::Asset { event: AssetEvent::New { .. } } => "asset-new".into(),
        ConnectionEvent::Chat { event: ChatEvent::New { .. } } => "chat-new".into(),
        _ => "other".into(),
    }
}

#[test]
fn good_auth_announces_session_then_assets_once() {
    let cfg = config();
    let mut state = ReaderState::new();
    let events = events_for_packet(&mut state, &cfg, WirePacket::GoodAuth { user: user("7"), channel_name: "Lounge".to_string() });
    let kinds: Vec<String> = events.iter().map(kind).collect();
    assert_eq!(
        kinds,
        vec!["connected", "channel-new", "join", "switch", "user-new", "identify", "asset-new", "asset-new"]
    );
    assert_eq!(state.current_channel, Some("Lounge".to_string()));
    match &events[4] {
        ConnectionEvent::User { event: UserEvent::New { channel_id, user } } => {
            assert_eq!(channel_id, &Some("Lounge".to_string()));
            assert_eq!(user.picture, Some("https://pics/7.png".to_string()));
            assert_eq!(user.color, Some([1, 2, 3, 255]));
        }
        _ => panic!("expected the local user"),
    }
    let again = events_for_packet(&mut state, &cfg, WirePacket::GoodAuth { user: user("7"), channel_name: "Lounge".to_string() });
    assert_eq!(again.len(), 6);
}

#[test]
fn bad_auth_reports_time_and_reason() {
    let mut state = ReaderState::new();
    let events = events_for_packet(&mut state, &config(), WirePacket::BadAuth { reason: "AuthFail".to_string(), timestamp: 1234 });
    match &events[..] {
        [ConnectionEvent::Status { event: StatusEvent::Disconnected { artifact } }] => {
            assert_eq!(artifact, &Some("1234: AuthFail".to_string()));
        }
        _ => panic!("expected one disconnection"),
    }
}

#[test]
fn forced_switch_moves_later_events() {
    let cfg = config();
    let mut state = ReaderState::new();
    events_for_packet(&mut state, &cfg, WirePacket::ForcedSwitch { channel_name: "B".to_string() });
    let events = events_for_packet(
        &mut state,
        &cfg,
        WirePacket::ChatMessage {
            user_id: "-1".to_string(),
            sequence_id: "s1".to_string(),
            timestamp: 2,
            content: vec![MessageFragment::Text("hi".to_string())],
        },
    );
    match &events[..] {
        [ConnectionEvent::Chat { event: ChatEvent::New { channel_id, message } }] => {
            assert_eq!(channel_id, &Some("B".to_string()));
            assert_eq!(message.id, Some("s1".to_string()));
            assert_eq!(message.timestamp, 2_000_000_000);
            assert_eq!(message.message_type, MessageType::Server);
        }
        _ => panic!("expected one chat message"),
    }
}

#[test]
fn context_clearing_gives_one_event_per_flag() {
    let cfg = config();
    let mut state = ReaderState::new();
    let kinds = |state: &mut ReaderState, m, u, c| -> Vec<String> {
        events_for_packet(state, &cfg, WirePacket::ContextClearing { message_history: m, user_list: u, channel_list: c })
            .iter()
            .map(kind)
            .collect()
    };
    assert!(kinds(&mut state, false, false, false).is_empty());
    assert_eq!(kinds(&mut state, true, false, true), vec!["wipe", "channel-clear"]);
    assert_eq!(kinds(&mut state, true, true, true), vec!["wipe", "user-clear", "channel-clear"]);
}

#[test]
fn existing_users_and_channels() {
    let cfg = config();
    let mut state = ReaderState::new();
    let users = events_for_packet(&mut state, &cfg, WirePacket::ExistingUsers { users: vec![user("1"), user("2")] });
    assert_eq!(users.len(), 2);
    let channels = events_for_packet(&mut state, &cfg, WirePacket::Channels { names: vec!["a".to_string(), "b".to_string()] });
    let kinds: Vec<String> = channels.iter().map(kind).collect();
    assert_eq!(kinds, vec!["channel-new", "channel-new"]);
    let switched = events_for_packet(&mut state, &cfg, WirePacket::SwitchJoin { user: user("3") });
    match &switched[..] {
        [ConnectionEvent::User { event: UserEvent::New { user, .. } }] => assert_eq!(user.picture, None),
        _ => panic!("expected one user"),
    }
}

#[test]
fn chat_text_goes_through_markup_then_assets() {
    let content = oshatori::connection::reader::message_content("[b]hi :a:[/b] [url]//x.org[/url]", &config().assets);
    assert_eq!(
        content,
        vec![
            MessageFragment::Text("hi ".to_string()),
            MessageFragment::AssetId("a".to_string()),
            MessageFragment::Text(" ".to_string()),
            MessageFragment::Url("https://x.org".to_string()),
        ]
    );
}
