use oshatori::client::{ConnectionStatus, StateClient};
use oshatori::connection::{ChannelEvent, ChatEvent, ConnectionEvent, StatusEvent, UserEvent};
use oshatori::{Channel, ChannelType, Message, MessageFragment, MessageStatus, MessageType, Profile};

fn now_nanos() -> i64 {
    chrono::Utc::now().timestamp_nanos_opt().unwrap()
}

#[test]
fn stateclient_basic() {
    let mut client = StateClient::new();
    let conn_id = client.track("mock");

    assert!(client.get_connection(&conn_id).is_some());
    assert_eq!(client.list_connections().len(), 1);

    client.untrack(&conn_id);
    assert!(client.get_connection(&conn_id).is_none());
}

#[test]
fn stateclient_status_events() {
    let mut client = StateClient::new();
    let conn_id = client.track("mock");

    client.process(
        &conn_id,
        ConnectionEvent::Status { event: StatusEvent::Connected { artifact: None } },
    );

    let state = client.get_connection(&conn_id).unwrap();
    assert_eq!(state.status, ConnectionStatus::Connected);

    client.process(
        &conn_id,
        ConnectionEvent::Status { event: StatusEvent::Disconnected { artifact: None } },
    );

    let state = client.get_connection(&conn_id).unwrap();
    assert_eq!(state.status, ConnectionStatus::Disconnected);
}

#[test]
fn stateclient_channel_events() {
    let mut client = StateClient::new();
    let conn_id = client.track("mock");

    client.process(
        &conn_id,
        ConnectionEvent::Channel {
            event: ChannelEvent::New {
                channel: Channel {
                    id: "general".to_string(),
                    name: Some("General".to_string()),
                    channel_type: ChannelType::Group,
                },
            },
        },
    );

    let channel = client.get_channel(&conn_id, "general");
    assert!(channel.is_some());
    assert_eq!(channel.unwrap().channel.name, Some("General".to_string()));

    client.process(
        &conn_id,
        ConnectionEvent::Channel {
            event: ChannelEvent::Switch { channel_id: "general".to_string() },
        },
    );

    let state = client.get_connection(&conn_id).unwrap();
    assert_eq!(state.current_channel, Some("general".to_string()));
}

#[test]
fn stateclient_user_events() {
    let mut client = StateClient::new();
    let conn_id = client.track("mock");

    client.process(
        &conn_id,
        ConnectionEvent::Channel {
            event: ChannelEvent::New {
                channel: Channel {
                    id: "general".to_string(),
                    name: None,
                    channel_type: ChannelType::Group,
                },
            },
        },
    );

    client.process(
        &conn_id,
        ConnectionEvent::User {
            event: UserEvent::New {
                channel_id: Some("general".to_string()),
                user: Profile {
                    id: Some("user1".to_string()),
                    username: Some("testuser".to_string()),
                    display_name: None,
                    color: None,
                    picture: None,
                },
            },
        },
    );

    let user = client.get_user(&conn_id, "user1");
    assert!(user.is_some());
    assert_eq!(user.unwrap().username, Some("testuser".to_string()));

    let channel = client.get_channel(&conn_id, "general").unwrap();
    assert_eq!(channel.users.len(), 1);
}

#[test]
fn stateclient_chat_events() {
    let mut client = StateClient::new();
    let conn_id = client.track("mock");

    client.process(
        &conn_id,
        ConnectionEvent::Channel {
            event: ChannelEvent::New {
                channel: Channel {
                    id: "general".to_string(),
                    name: None,
                    channel_type: ChannelType::Group,
                },
            },
        },
    );

    let message = Message {
        id: Some("msg1".to_string()),
        sender_id: Some("user1".to_string()),
        content: vec![MessageFragment::Text("test".to_string())],
        timestamp: now_nanos(),
        message_type: MessageType::Normal,
        status: MessageStatus::Sent,
    };

    client.process(
        &conn_id,
        ConnectionEvent::Chat {
            event: ChatEvent::New { channel_id: Some("general".to_string()), message: message },
        },
    );

    let messages = client.get_messages(&conn_id, "general");
    assert_eq!(messages.len(), 1);
    assert_eq!(messages[0].id, Some("msg1".to_string()));

    client.process(
        &conn_id,
        ConnectionEvent::Chat {
            event: ChatEvent::Remove {
                channel_id: Some("general".to_string()),
                message_id: "msg1".to_string(),
            },
        },
    );

    let messages = client.get_messages(&conn_id, "general");
    assert_eq!(messages.len(), 0);
}
