use oshatori::connection::{ChatEvent, ConnectionEvent, Delivery, StatusEvent, Subscription, SubscribeError};
use oshatori::multiplexer::{event_scope, SelectedContext, SendError, StateClient};
use oshatori::{Message, MessageFragment, MessageStatus, MessageType};

fn chat(channel: Option<&str>, text: &str) -> ConnectionEvent {
    ConnectionEvent::Chat {
        event: ChatEvent::New {
            channel_id: channel.map(|c| c.to_string()),
            message: Message {
                id: None,
                sender_id: None,
                content: vec![MessageFragment::Text(text.to_string())],
                timestamp: 0,
                message_type: MessageType::Normal,
                status: MessageStatus::Sent,
            },
        },
    }
}

#[test]
fn second_subscription_is_refused() {
    let mut s = Subscription::new();
    assert_eq!(s.take(), Ok(()));
    assert_eq!(s.take(), Err(SubscribeError::AlreadySubscribed));
    assert_eq!(s.take(), Err(SubscribeError::AlreadySubscribed));
}

#[test]
fn reader_passes_lag_and_stops_on_close() {
    let mut client = StateClient::new();
    let account = client.add_account();
    let connection = client.add_connection(&account).unwrap();
    let deliveries = vec![
        Delivery::Event(chat(Some("general"), "one")),
        Delivery::Lagged(5),
        Delivery::Event(chat(Some("general"), "two")),
        Delivery::Closed,
        Delivery::Event(chat(Some("general"), "never")),
    ];
    let mut taken = 0;
    for d in deliveries {
        taken += 1;
        if !client.absorb(&account, &connection, d) {
            break;
        }
    }
    assert_eq!(taken, 4);
    client.select(SelectedContext {
        account: account.clone(),
        connection: connection.clone(),
        channel_id: Some("general".to_string()),
    });
    assert_eq!(client.current_state().unwrap().chat_history.len(), 2);
}

#[test]
fn send_routing_follows_the_selection() {
    let mut client = StateClient::new();
    assert_eq!(client.route_send(), Err(SendError::NoActiveContext));
    let account = client.add_account();
    client.select(SelectedContext { account: "missing".to_string(), connection: "c".to_string(), channel_id: None });
    assert_eq!(client.route_send(), Err(SendError::AccountNotFound));
    client.select(SelectedContext { account: account.clone(), connection: "c".to_string(), channel_id: None });
    assert_eq!(client.route_send(), Err(SendError::ConnectionNotFound));
    let connection = client.add_connection(&account).unwrap();
    client.select(SelectedContext { account: account.clone(), connection: connection.clone(), channel_id: None });
    assert_eq!(client.route_send(), Ok((account, connection)));
}

#[test]
fn events_are_filed_by_scope() {
    let mut client = StateClient::new();
    let account = client.add_account();
    let connection = client.add_connection(&account).unwrap();
    assert!(client.add_connection("nobody").is_none());
    client.record_event(&account, &connection, chat(None, "global"));
    client.record_event(&account, &connection, chat(Some("a"), "in a"));
    client.record_event(&account, &connection, ConnectionEvent::Status { event: StatusEvent::Ping { artifact: None } });
    let mut scopes = client.list_channels(&account, &connection).unwrap();
    scopes.sort();
    assert_eq!(scopes, vec![None, Some("a".to_string())]);
    client.select(SelectedContext { account: account.clone(), connection: connection.clone(), channel_id: None });
    let global = client.current_state().unwrap();
    assert_eq!(global.chat_history.len(), 1);
    assert_eq!(global.user_list.len(), 0);
    assert_eq!(event_scope(&chat(Some("a"), "x")), Some("a".to_string()));
    assert_eq!(event_scope(&ConnectionEvent::Status { event: StatusEvent::Ping { artifact: None } }), None);
}

#[test]
fn accounts_and_connections_are_listed_and_removed() {
    let mut client = StateClient::new();
    let a = client.add_account();
    let b = client.add_account();
    let c1 = client.add_connection(&a).unwrap();
    let c2 = client.add_connection(&a).unwrap();
    assert_eq!(client.list_accounts().len(), 2);
    let mut conns = client.list_connections(&a).unwrap();
    conns.sort();
    let mut expected = vec![c1.clone(), c2.clone()];
    expected.sort();
    assert_eq!(conns, expected);
    assert_eq!(client.list_connections(&b).unwrap().len(), 0);
    assert!(client.list_connections("nobody").is_none());
    let mut removed = client.remove_account(&a);
    removed.sort();
    assert_eq!(removed, expected);
    assert_eq!(client.list_accounts(), vec![b]);
    assert!(client.list_channels(&a, &c1).is_none());
}

#[test]
fn whole_stream_is_filed_until_it_ends() {
    let mut client = StateClient::new();
    let account = client.add_account();
    let connection = client.add_connection(&account).unwrap();
    let keep_reading = client.absorb_all(
        &account,
        &connection,
        vec![
            Delivery::Event(chat(Some("g"), "one")),
            Delivery::Lagged(7),
            Delivery::Event(chat(Some("g"), "two")),
        ],
    );
    assert!(keep_reading);
    let stopped = client.absorb_all(
        &account,
        &connection,
        vec![Delivery::Event(chat(Some("g"), "three")), Delivery::Closed, Delivery::Event(chat(Some("g"), "four"))],
    );
    assert!(!stopped);
    client.select(SelectedContext { account, connection, channel_id: Some("g".to_string()) });
    assert_eq!(client.current_state().unwrap().chat_history.len(), 3);
}

#[test]
fn new_ids_are_fresh() {
    let mut client = StateClient::new();
    let a = client.add_account();
    let b = client.add_account();
    assert_ne!(a, b);
    let c1 = client.add_connection(&a).unwrap();
    let c2 = client.add_connection(&a).unwrap();
    assert_ne!(c1, c2);
}
