use oshatori::connection::sockchat::{
    auth_frame, catalog_emote, catalog_url, chat_frame, outbound_text, ping_frame, protocol_spec, read_credentials,
    CredentialError, OutboundError,
};
use oshatori::connection::{ChatEvent, ConnectionEvent, StatusEvent};
use oshatori::{Asset, AssetSource, AuthField, FieldValue, Message, MessageFragment, MessageStatus, MessageType};

fn text(name: &str, value: &str) -> AuthField {
    AuthField { name: name.to_string(), display: None, value: FieldValue::Text(Some(value.to_string())), required: true }
}

fn secret(name: &str, value: &str) -> AuthField {
    AuthField {
        name: name.to_string(),
        display: None,
        value: FieldValue::Password(Some(value.to_string())),
        required: true,
    }
}

#[test]
fn credentials_are_checked_in_order() {
    let err = |fields: Vec<AuthField>| read_credentials(&fields).unwrap_err();
    assert_eq!(err(vec![]), CredentialError::MissingUrl);
    assert_eq!(err(vec![text("sockchat_url", "ws://chat.example/")]), CredentialError::MissingToken);
    assert_eq!(
        err(vec![text("sockchat_url", "ws://chat.example/"), text("token", "not secret")]),
        CredentialError::MissingToken
    );
    assert_eq!(
        err(vec![text("sockchat_url", "ws://chat.example/"), secret("token", "t")]),
        CredentialError::MissingUid
    );
    assert_eq!(
        err(vec![text("sockchat_url", "not a url"), secret("token", "t"), text("uid", "7")]),
        CredentialError::InvalidUrl
    );
    assert_eq!(CredentialError::MissingUrl.message(), "Missing URL field");
}

#[test]
fn credentials_are_read() {
    let fields = vec![
        text("sockchat_url", "ws://chat.example/sock"),
        secret("token", "t1"),
        text("uid", "7"),
        text("uid", "8"),
        text("pfp_url", "https://pics/{uid}.png"),
    ];
    let config = read_credentials(&fields).unwrap();
    assert_eq!(config.url, "ws://chat.example/sock");
    assert_eq!(config.token, "t1");
    assert_eq!(config.uid, "8");
    assert_eq!(config.pfp_url, Some("https://pics/{uid}.png".to_string()));
    assert_eq!(config.asset_api, None);
}

#[test]
fn descriptor_lists_five_fields() {
    let p = protocol_spec();
    assert_eq!(p.name, "sockchat");
    let fields = p.auth.unwrap();
    let names: Vec<&str> = fields.iter().map(|f| f.name.as_str()).collect();
    assert_eq!(names, vec!["sockchat_url", "token", "uid", "pfp_url", "asset_api"]);
    let required: Vec<bool> = fields.iter().map(|f| f.required).collect();
    assert_eq!(required, vec![true, true, true, false, false]);
    assert!(matches!(fields[1].value, FieldValue::Password(None)));
}

fn new_message(content: Vec<MessageFragment>) -> ConnectionEvent {
    ConnectionEvent::Chat {
        event: ChatEvent::New {
            channel_id: None,
            message: Message {
                id: None,
                sender_id: None,
                content,
                timestamp: 0,
                message_type: MessageType::Normal,
                status: MessageStatus::Sent,
            },
        },
    }
}

#[test]
fn only_chat_with_leading_text_is_sent() {
    assert_eq!(outbound_text(&new_message(vec![MessageFragment::Text("hi".to_string())])), Ok("hi".to_string()));
    assert_eq!(
        outbound_text(&new_message(vec![MessageFragment::Url("http://x".to_string())])),
        Err(OutboundError::UnsupportedFormat)
    );
    assert_eq!(outbound_text(&new_message(vec![])), Err(OutboundError::UnsupportedFormat));
    assert_eq!(
        outbound_text(&ConnectionEvent::Status { event: StatusEvent::Ping { artifact: None } }),
        Err(OutboundError::UnsupportedFormat)
    );
}

#[test]
fn frames_are_tab_separated() {
    assert_eq!(chat_frame("7", "hello"), "2\t7\thello");
    assert_eq!(auth_frame("tok"), "1\tMisuzu\ttok");
    assert_eq!(ping_frame("7"), "0\t7");
}

#[test]
fn catalog_entries_become_emotes() {
    assert!(catalog_emote("https://e/x.png".to_string(), &vec![]).is_none());
    let a = catalog_emote("https://e/x.png".to_string(), &vec!["smile".to_string(), "b+".to_string()]).unwrap();
    match a {
        Asset::Emote { id, pattern, src, source } => {
            assert_eq!(id, Some("smile".to_string()));
            assert_eq!(pattern, ":(?:smile|b\\+):");
            assert_eq!(src, "https://e/x.png");
            assert_eq!(source, AssetSource::Server);
        }
        _ => panic!("not an emote"),
    }
    assert_eq!(catalog_url("https://api.example/v1/"), "https://api.example/v1/emotes");
    assert_eq!(catalog_url("https://api.example/v1"), "https://api.example/v1/emotes");
}

#[test]
fn server_url_is_normalised() {
    let fields = vec![text("sockchat_url", "WS://Chat.Example"), secret("token", "t"), text("uid", "1")];
    assert_eq!(read_credentials(&fields).unwrap().url, "ws://chat.example/");
}
