use vstd::prelude::*;
use crate::client::state::{
    channel_or_new, empty_channel, with_channel_created, ChannelState, ChannelView,
    ConnectionState, ConnectionStatus, ConnectionView,
};
use crate::connection::{
    AssetEvent, ChannelEvent, ChatEvent, ConnectionEvent, StatusEvent, UserEvent,
};
use crate::{Asset, Message, Profile};

verus! {

/// The key a new user is stored under: its id, or the empty string.
pub open spec fn profile_key(p: Profile) -> Seq<char> {
    match p.id {
        Some(id) => id@,
        None => Seq::empty(),
    }
}

/// The key a new asset is stored under: its id, or the empty string.
pub open spec fn asset_key(a: Asset) -> Seq<char> {
    match a.spec_id() {
        Some(id) => id@,
        None => Seq::empty(),
    }
}

/// Whether a message carries the id `id`.
pub open spec fn has_id(m: Message, id: Seq<char>) -> bool {
    m.id matches Some(x) && x@ == id
}

/// Whether position `i` holds the first message with id `id`.
pub open spec fn is_first_with_id(msgs: Seq<Message>, id: Seq<char>, i: int) -> bool {
    &&& 0 <= i < msgs.len()
    &&& has_id(msgs[i], id)
    &&& forall|j: int| 0 <= j < i ==> !has_id(#[trigger] msgs[j], id)
}

/// `msgs` with the first message of id `id` replaced by `m`; unchanged where no
/// message has that id.
pub open spec fn replace_first(msgs: Seq<Message>, id: Seq<char>, m: Message) -> Seq<Message> {
    if exists|i: int| is_first_with_id(msgs, id, i) {
        msgs.update(choose|i: int| is_first_with_id(msgs, id, i), m)
    } else {
        msgs
    }
}

/// `msgs` without the messages of id `id`, the others in their order.
pub open spec fn without_id(msgs: Seq<Message>, id: Seq<char>) -> Seq<Message> {
    msgs.filter(|m: Message| !has_id(m, id))
}

/// `s` with channel `id` set to `c`.
pub open spec fn set_channel(s: ConnectionView, id: String, c: ChannelView) -> ConnectionView {
    ConnectionView { channels: s.channels.insert(id@, c), ..s }
}

pub open spec fn apply_status(s: ConnectionView, e: StatusEvent) -> ConnectionView {
    match e {
        StatusEvent::Connected { .. } => ConnectionView { status: ConnectionStatus::Connected, ..s },
        StatusEvent::Disconnected { .. } => ConnectionView {
            status: ConnectionStatus::Disconnected,
            ..s
        },
        StatusEvent::Ping { .. } => s,
    }
}

pub open spec fn apply_channel(s: ConnectionView, e: ChannelEvent) -> ConnectionView {
    match e {
        ChannelEvent::New { channel } => {
            if s.channels.contains_key(channel.id@) {
                s
            } else {
                ConnectionView {
                    channels: s.channels.insert(channel.id@, empty_channel(channel)),
                    ..s
                }
            }
        },
        ChannelEvent::Update { channel_id, new_channel } => {
            if s.channels.contains_key(channel_id@) {
                set_channel(
                    s,
                    channel_id,
                    ChannelView { channel: new_channel, ..s.channels[channel_id@] },
                )
            } else {
                s
            }
        },
        ChannelEvent::Remove { channel_id } => ConnectionView {
            channels: s.channels.remove(channel_id@),
            ..s
        },
        ChannelEvent::Join { channel_id } => with_channel_created(s, channel_id),
        ChannelEvent::Leave { channel_id } => {
            if s.current_channel matches Some(c) && c@ == channel_id@ {
                ConnectionView { current_channel: None, ..s }
            } else {
                s
            }
        },
        ChannelEvent::Switch { channel_id } => ConnectionView {
            current_channel: Some(channel_id),
            ..s
        },
        ChannelEvent::Kick { .. } => ConnectionView { current_channel: None, ..s },
        ChannelEvent::Wipe { channel_id } => match channel_id {
            Some(id) => {
                if s.channels.contains_key(id@) {
                    set_channel(s, id, ChannelView { messages: Seq::empty(), ..s.channels[id@] })
                } else {
                    s
                }
            },
            None => s,
        },
        ChannelEvent::ClearList => ConnectionView { channels: Map::empty(), ..s },
    }
}

/// A user stored under `key`, in channel `scope` (created where missing) or globally.
pub open spec fn upsert_user(
    s: ConnectionView,
    scope: Option<String>,
    key: Seq<char>,
    p: Profile,
) -> ConnectionView {
    match scope {
        Some(id) => {
            let c = channel_or_new(s, id);
            set_channel(s, id, ChannelView { users: c.users.insert(key, p), ..c })
        },
        None => ConnectionView { global_users: s.global_users.insert(key, p), ..s },
    }
}

pub open spec fn apply_user(s: ConnectionView, e: UserEvent) -> ConnectionView {
    match e {
        UserEvent::New { channel_id, user } => upsert_user(s, channel_id, profile_key(user), user),
        UserEvent::Update { channel_id, user_id, new_user } => upsert_user(
            s,
            channel_id,
            user_id@,
            new_user,
        ),
        UserEvent::Remove { channel_id, user_id } => match channel_id {
            Some(id) => {
                if s.channels.contains_key(id@) {
                    let c = s.channels[id@];
                    set_channel(s, id, ChannelView { users: c.users.remove(user_id@), ..c })
                } else {
                    s
                }
            },
            None => ConnectionView { global_users: s.global_users.remove(user_id@), ..s },
        },
        UserEvent::ClearList { channel_id } => match channel_id {
            Some(id) => {
                if s.channels.contains_key(id@) {
                    set_channel(s, id, ChannelView { users: Map::empty(), ..s.channels[id@] })
                } else {
                    s
                }
            },
            None => ConnectionView { global_users: Map::empty(), ..s },
        },
        UserEvent::Identify { user_id } => ConnectionView { current_user_id: Some(user_id), ..s },
    }
}

pub open spec fn apply_chat(s: ConnectionView, e: ChatEvent) -> ConnectionView {
    match e {
        ChatEvent::New { channel_id, message } => match channel_id {
            Some(id) => {
                let c = channel_or_new(s, id);
                set_channel(s, id, ChannelView { messages: c.messages.push(message), ..c })
            },
            None => s,
        },
        ChatEvent::Update { channel_id, message_id, new_message } => match channel_id {
            Some(id) => {
                if s.channels.contains_key(id@) {
                    let c = s.channels[id@];
                    set_channel(
                        s,
                        id,
                        ChannelView {
                            messages: replace_first(c.messages, message_id@, new_message),
                            ..c
                        },
                    )
                } else {
                    s
                }
            },
            None => s,
        },
        ChatEvent::Remove { channel_id, message_id } => match channel_id {
            Some(id) => {
                if s.channels.contains_key(id@) {
                    let c = s.channels[id@];
                    set_channel(
                        s,
                        id,
                        ChannelView { messages: without_id(c.messages, message_id@), ..c },
                    )
                } else {
                    s
                }
            },
            None => s,
        },
    }
}

/// An asset stored under `key`, in channel `scope` (created where missing) or globally.
pub open spec fn upsert_asset(
    s: ConnectionView,
    scope: Option<String>,
    key: Seq<char>,
    a: Asset,
) -> ConnectionView {
    match scope {
        Some(id) => {
            let c = channel_or_new(s, id);
            set_channel(s, id, ChannelView { assets: c.assets.insert(key, a), ..c })
        },
        None => ConnectionView { global_assets: s.global_assets.insert(key, a), ..s },
    }
}

pub open spec fn apply_asset(s: ConnectionView, e: AssetEvent) -> ConnectionView {
    match e {
        AssetEvent::New { channel_id, asset } => upsert_asset(s, channel_id, asset_key(asset), asset),
        AssetEvent::Update { channel_id, asset_id, new_asset } => upsert_asset(
            s,
            channel_id,
            asset_id@,
            new_asset,
        ),
        AssetEvent::Remove { channel_id, asset_id } => match channel_id {
            Some(id) => {
                if s.channels.contains_key(id@) {
                    let c = s.channels[id@];
                    set_channel(s, id, ChannelView { assets: c.assets.remove(asset_id@), ..c })
                } else {
                    s
                }
            },
            None => ConnectionView { global_assets: s.global_assets.remove(asset_id@), ..s },
        },
        AssetEvent::ClearList { channel_id } => match channel_id {
            Some(id) => {
                if s.channels.contains_key(id@) {
                    set_channel(s, id, ChannelView { assets: Map::empty(), ..s.channels[id@] })
                } else {
                    s
                }
            },
            None => ConnectionView { global_assets: Map::empty(), ..s },
        },
    }
}

/// The projection after one event.
pub open spec fn apply_event(s: ConnectionView, e: ConnectionEvent) -> ConnectionView {
    match e {
        ConnectionEvent::Status { event } => apply_status(s, event),
        ConnectionEvent::Channel { event } => apply_channel(s, event),
        ConnectionEvent::User { event } => apply_user(s, event),
        ConnectionEvent::Chat { event } => apply_chat(s, event),
        ConnectionEvent::Asset { event } => apply_asset(s, event),
    }
}

/// The projection after a sequence of events, applied from first to last.
pub open spec fn apply_events(s: ConnectionView, events: Seq<ConnectionEvent>) -> ConnectionView
    decreases events.len(),
{
    if events.len() == 0 {
        s
    } else {
        apply_event(apply_events(s, events.drop_last()), events.last())
    }
}


proof fn lemma_remove_insert(m: Map<Seq<char>, ChannelView>, k: Seq<char>, v: ChannelView)
    ensures
        m.remove(k).insert(k, v) == m.insert(k, v),
{
    assert(m.remove(k).insert(k, v) =~= m.insert(k, v));
}

proof fn lemma_remove_absent(m: Map<Seq<char>, ChannelView>, k: Seq<char>)
    requires
        !m.contains_key(k),
    ensures
        m.remove(k) == m,
{
    assert(m.remove(k) =~= m);
}

proof fn lemma_without_id_step(s: Seq<Message>, j: int, id: Seq<char>)
    requires
        0 <= j < s.len(),
    ensures
        without_id(s.subrange(0, j + 1), id) == (if has_id(s[j], id) {
            without_id(s.subrange(0, j), id)
        } else {
            without_id(s.subrange(0, j), id).push(s[j])
        }),
{
    reveal(Seq::filter);
    let t = s.subrange(0, j + 1);
    assert(t.drop_last() =~= s.subrange(0, j));
    assert(t.last() == s[j]);
}

/// Replaces the first message of id `id` by `m`; a missing id changes nothing.
fn replace_first_message(msgs: &mut Vec<Message>, id: &String, m: Message)
    ensures
        final(msgs)@ == replace_first(old(msgs)@, id@, m),
{
    let mut i: usize = 0;
    while i < msgs.len()
        invariant
            0 <= i <= msgs.len(),
            msgs@ == old(msgs)@,
            forall|j: int| 0 <= j < i ==> !has_id(#[trigger] msgs@[j], id@),
        decreases msgs.len() - i,
    {
        let hit = match &msgs[i].id {
            Some(x) => *x == *id,
            None => false,
        };
        if hit {
            let ghost o = msgs@;
            assert(is_first_with_id(o, id@, i as int));
            msgs.remove(i);
            msgs.insert(i, m);
            proof {
                let c = choose|k: int| is_first_with_id(o, id@, k);
                if c < i {
                    assert(!has_id(o[c], id@));
                } else if c > i {
                    assert(!has_id(o[i as int], id@));
                }
                assert(c == i);
                assert(msgs@ =~= o.update(i as int, m));
            }
            return;
        }
        i = i + 1;
    }
    assert(!exists|k: int| is_first_with_id(old(msgs)@, id@, k));
}

/// Drops every message of id `id`, keeping the order of the others.
fn remove_messages_with_id(msgs: &mut Vec<Message>, id: &String)
    ensures
        final(msgs)@ == without_id(old(msgs)@, id@),
{
    let ghost orig = msgs@;
    let ghost mut j: int = 0;
    let mut i: usize = 0;
    proof {
        reveal(Seq::filter);
        assert(msgs@.subrange(0, 0) =~= without_id(orig.subrange(0, 0), id@));
        assert(msgs@.subrange(0, msgs@.len() as int) =~= orig.subrange(0, orig.len() as int));
    }
    while i < msgs.len()
        invariant
            0 <= i <= msgs.len(),
            0 <= j <= orig.len(),
            msgs@.subrange(0, i as int) == without_id(orig.subrange(0, j), id@),
            msgs@.subrange(i as int, msgs@.len() as int) == orig.subrange(j, orig.len() as int),
        decreases msgs.len() - i,
    {
        let ghost o = msgs@;
        assert(o.subrange(i as int, o.len() as int).len() == o.len() - i);
        assert(j < orig.len());
        assert(o[i as int] == o.subrange(i as int, o.len() as int)[0]);
        assert(orig[j] == orig.subrange(j, orig.len() as int)[0]);
        assert(o[i as int] == orig[j]);
        assert(o.subrange(i + 1, o.len() as int) =~= o.subrange(i as int, o.len() as int).drop_first());
        assert(orig.subrange(j + 1, orig.len() as int) =~= orig.subrange(j, orig.len() as int).drop_first());
        assert(o.subrange(i + 1, o.len() as int) == orig.subrange(j + 1, orig.len() as int));
        proof {
            lemma_without_id_step(orig, j, id@);
        }
        let hit = match &msgs[i].id {
            Some(x) => *x == *id,
            None => false,
        };
        if hit {
            msgs.remove(i);
            assert(msgs@.subrange(0, i as int) =~= o.subrange(0, i as int));
            assert(msgs@.subrange(i as int, msgs@.len() as int) =~= o.subrange(i + 1, o.len() as int));
        } else {
            i = i + 1;
            assert(msgs@.subrange(0, i as int) =~= o.subrange(0, i - 1).push(orig[j]));
        }
        proof {
            j = j + 1;
        }
    }
    assert(orig.subrange(j, orig.len() as int).len() == 0);
    assert(orig.subrange(0, j) =~= orig);
    assert(msgs@ =~= msgs@.subrange(0, i as int));
}

fn process_status(state: &mut ConnectionState, event: StatusEvent)
    requires
        old(state).wf(),
    ensures
        final(state).wf(),
        final(state)@ == apply_status(old(state)@, event),
{
    match event {
        StatusEvent::Connected { .. } => {
            state.status = ConnectionStatus::Connected;
        },
        StatusEvent::Disconnected { .. } => {
            state.status = ConnectionStatus::Disconnected;
        },
        StatusEvent::Ping { .. } => {},
    }
}

fn process_channel(state: &mut ConnectionState, event: ChannelEvent)
    requires
        old(state).wf(),
    ensures
        final(state).wf(),
        final(state)@ == apply_channel(old(state)@, event),
{
    let ghost s0 = state@;
    match event {
        ChannelEvent::New { channel } => {
            if !state.channels.contains_key(channel.id.as_str()) {
                let id = channel.id.clone();
                let c = ChannelState::new(channel);
                state.put_channel(id, c);
            }
        },
        ChannelEvent::Update { channel_id, new_channel } => {
            match state.take_channel(&channel_id, false) {
                Some(c) => {
                    let mut c = c;
                    c.channel = new_channel;
                    proof {
                        lemma_remove_insert(s0.channels, channel_id@, c@);
                    }
                    state.put_channel(channel_id, c);
                },
                None => {
                    proof {
                        lemma_remove_absent(s0.channels, channel_id@);
                    }
                },
            }
        },
        ChannelEvent::Remove { channel_id } => {
            let _ = state.take_channel(&channel_id, false);
        },
        ChannelEvent::Join { channel_id } => {
            state.get_or_create_channel(&channel_id);
        },
        ChannelEvent::Leave { channel_id } => {
            let leaving = match &state.current_channel {
                Some(c) => *c == channel_id,
                None => false,
            };
            if leaving {
                state.current_channel = None;
            }
        },
        ChannelEvent::Switch { channel_id } => {
            state.current_channel = Some(channel_id);
        },
        ChannelEvent::Kick { .. } => {
            state.current_channel = None;
        },
        ChannelEvent::Wipe { channel_id } => {
            if let Some(id) = channel_id {
                match state.take_channel(&id, false) {
                    Some(c) => {
                        let mut c = c;
                        c.messages = Vec::new();
                        proof {
                            lemma_remove_insert(s0.channels, id@, c@);
                        }
                        state.put_channel(id, c);
                    },
                    None => {
                        proof {
                            lemma_remove_absent(s0.channels, id@);
                        }
                    },
                }
            }
        },
        ChannelEvent::ClearList => {
            state.channels.clear();
            assert(state@.channels =~= Map::<Seq<char>, ChannelView>::empty());
        },
    }
}

/// Stores a user under `key`, in channel `scope` (created where missing) or globally.
fn store_user(state: &mut ConnectionState, scope: Option<String>, key: String, p: Profile)
    requires
        old(state).wf(),
    ensures
        final(state).wf(),
        final(state)@ == upsert_user(old(state)@, scope, key@, p),
{
    let ghost s0 = state@;
    match scope {
        Some(id) => {
            let mut c = state.take_channel(&id, true).unwrap();
            c.users.insert(key, p);
            proof {
                lemma_remove_insert(s0.channels, id@, c@);
            }
            state.put_channel(id, c);
        },
        None => {
            state.global_users.insert(key, p);
        },
    }
}

fn process_user(state: &mut ConnectionState, event: UserEvent)
    requires
        old(state).wf(),
    ensures
        final(state).wf(),
        final(state)@ == apply_user(old(state)@, event),
{
    let ghost s0 = state@;
    match event {
        UserEvent::New { channel_id, user } => {
            let key = match &user.id {
                Some(id) => id.clone(),
                None => String::new(),
            };
            store_user(state, channel_id, key, user);
        },
        UserEvent::Update { channel_id, user_id, new_user } => {
            store_user(state, channel_id, user_id, new_user);
        },
        UserEvent::Remove { channel_id, user_id } => match channel_id {
            Some(id) => match state.take_channel(&id, false) {
                Some(c) => {
                    let mut c = c;
                    c.users.remove(user_id.as_str());
                    proof {
                        lemma_remove_insert(s0.channels, id@, c@);
                    }
                    state.put_channel(id, c);
                },
                None => {
                    proof {
                        lemma_remove_absent(s0.channels, id@);
                    }
                },
            },
            None => {
                state.global_users.remove(user_id.as_str());
            },
        },
        UserEvent::ClearList { channel_id } => match channel_id {
            Some(id) => match state.take_channel(&id, false) {
                Some(c) => {
                    let mut c = c;
                    c.users.clear();
                    proof {
                        lemma_remove_insert(s0.channels, id@, c@);
                    }
                    state.put_channel(id, c);
                },
                None => {
                    proof {
                        lemma_remove_absent(s0.channels, id@);
                    }
                },
            },
            None => {
                state.global_users.clear();
            },
        },
        UserEvent::Identify { user_id } => {
            state.current_user_id = Some(user_id);
        },
    }
}

fn process_chat(state: &mut ConnectionState, event: ChatEvent)
    requires
        old(state).wf(),
    ensures
        final(state).wf(),
        final(state)@ == apply_chat(old(state)@, event),
{
    let ghost s0 = state@;
    match event {
        ChatEvent::New { channel_id, message } => {
            if let Some(id) = channel_id {
                let mut c = state.take_channel(&id, true).unwrap();
                c.messages.push(message);
                proof {
                    lemma_remove_insert(s0.channels, id@, c@);
                }
                state.put_channel(id, c);
            }
        },
        ChatEvent::Update { channel_id, message_id, new_message } => {
            if let Some(id) = channel_id {
                match state.take_channel(&id, false) {
                    Some(c) => {
                        let mut c = c;
                        replace_first_message(&mut c.messages, &message_id, new_message);
                        proof {
                            lemma_remove_insert(s0.channels, id@, c@);
                        }
                        state.put_channel(id, c);
                    },
                    None => {
                        proof {
                            lemma_remove_absent(s0.channels, id@);
                        }
                    },
                }
            }
        },
        ChatEvent::Remove { channel_id, message_id } => {
            if let Some(id) = channel_id {
                match state.take_channel(&id, false) {
                    Some(c) => {
                        let mut c = c;
                        remove_messages_with_id(&mut c.messages, &message_id);
                        proof {
                            lemma_remove_insert(s0.channels, id@, c@);
                        }
                        state.put_channel(id, c);
                    },
                    None => {
                        proof {
                            lemma_remove_absent(s0.channels, id@);
                        }
                    },
                }
            }
        },
    }
}

/// The id of an asset, whichever its kind.
pub fn get_asset_id(asset: &Asset) -> (r: Option<String>)
    ensures
        r == asset.spec_id(),
{
    match asset {
        Asset::Emote { id, .. } => id.clone(),
        Asset::Sticker { id, .. } => id.clone(),
        Asset::Audio { id, .. } => id.clone(),
        Asset::Command { id, .. } => id.clone(),
    }
}

/// Stores an asset under `key`, in channel `scope` (created where missing) or globally.
fn store_asset(state: &mut ConnectionState, scope: Option<String>, key: String, a: Asset)
    requires
        old(state).wf(),
    ensures
        final(state).wf(),
        final(state)@ == upsert_asset(old(state)@, scope, key@, a),
{
    let ghost s0 = state@;
    match scope {
        Some(id) => {
            let mut c = state.take_channel(&id, true).unwrap();
            c.assets.insert(key, a);
            proof {
                lemma_remove_insert(s0.channels, id@, c@);
            }
            state.put_channel(id, c);
        },
        None => {
            state.global_assets.insert(key, a);
        },
    }
}

fn process_asset(state: &mut ConnectionState, event: AssetEvent)
    requires
        old(state).wf(),
    ensures
        final(state).wf(),
        final(state)@ == apply_asset(old(state)@, event),
{
    let ghost s0 = state@;
    match event {
        AssetEvent::New { channel_id, asset } => {
            let key = match get_asset_id(&asset) {
                Some(id) => id,
                None => String::new(),
            };
            store_asset(state, channel_id, key, asset);
        },
        AssetEvent::Update { channel_id, asset_id, new_asset } => {
            store_asset(state, channel_id, asset_id, new_asset);
        },
        AssetEvent::Remove { channel_id, asset_id } => match channel_id {
            Some(id) => match state.take_channel(&id, false) {
                Some(c) => {
                    let mut c = c;
                    c.assets.remove(asset_id.as_str());
                    proof {
                        lemma_remove_insert(s0.channels, id@, c@);
                    }
                    state.put_channel(id, c);
                },
                None => {
                    proof {
                        lemma_remove_absent(s0.channels, id@);
                    }
                },
            },
            None => {
                state.global_assets.remove(asset_id.as_str());
            },
        },
        AssetEvent::ClearList { channel_id } => match channel_id {
            Some(id) => match state.take_channel(&id, false) {
                Some(c) => {
                    let mut c = c;
                    c.assets.clear();
                    proof {
                        lemma_remove_insert(s0.channels, id@, c@);
                    }
                    state.put_channel(id, c);
                },
                None => {
                    proof {
                        lemma_remove_absent(s0.channels, id@);
                    }
                },
            },
            None => {
                state.global_assets.clear();
            },
        },
    }
}

/// Applies one event to a connection's projection.
pub fn process_event(state: &mut ConnectionState, event: ConnectionEvent)
    requires
        old(state).wf(),
    ensures
        final(state).wf(),
        final(state)@ == apply_event(old(state)@, event),
{
    match event {
        ConnectionEvent::Status { event } => process_status(state, event),
        ConnectionEvent::Channel { event } => process_channel(state, event),
        ConnectionEvent::User { event } => process_user(state, event),
        ConnectionEvent::Chat { event } => process_chat(state, event),
        ConnectionEvent::Asset { event } => process_asset(state, event),
    }
}

/// Applies a batch of events in order.
pub fn process_events(state: &mut ConnectionState, events: Vec<ConnectionEvent>)
    requires
        old(state).wf(),
    ensures
        final(state).wf(),
        final(state)@ == apply_events(old(state)@, events@),
{
    let ghost s0 = state@;
    let ghost all = events@;
    let mut rest = events;
    let ghost mut done: Seq<ConnectionEvent> = Seq::empty();
    assert(all.subrange(0, 0) =~= done);
    while rest.len() > 0
        invariant
            state.wf(),
            done.len() + rest@.len() == all.len(),
            done == all.subrange(0, done.len() as int),
            rest@ == all.subrange(done.len() as int, all.len() as int),
            state@ == apply_events(s0, done),
        decreases rest@.len(),
    {
        let e = rest.remove(0);
        proof {
            assert(e == all[done.len() as int]);
            assert(rest@ =~= all.subrange(done.len() as int + 1, all.len() as int));
            let next = done.push(e);
            assert(next =~= all.subrange(0, next.len() as int));
            assert(next.drop_last() =~= done);
            done = next;
        }
        process_event(state, e);
    }
    assert(done =~= all);
}

/// Batch and one-at-a-time application agree: applying `a` and then `b` gives the
/// projection that applying `a` followed by `b` as one batch gives.
pub proof fn lemma_batch_is_stepwise(
    s: ConnectionView,
    a: Seq<ConnectionEvent>,
    b: Seq<ConnectionEvent>,
)
    ensures
        apply_events(s, a + b) == apply_events(apply_events(s, a), b),
    decreases b.len(),
{
    if b.len() == 0 {
        assert(a + b =~= a);
    } else {
        lemma_batch_is_stepwise(s, a, b.drop_last());
        assert((a + b).drop_last() =~= a + b.drop_last());
        assert((a + b).last() == b.last());
    }
}

/// A channel join, and a clearing of a user list, change nothing when repeated.
pub proof fn lemma_join_and_user_clear_idempotent(s: ConnectionView, e: ConnectionEvent)
    requires
        e matches ConnectionEvent::Channel { event: ChannelEvent::Join { .. } }
            || e matches ConnectionEvent::User { event: UserEvent::ClearList { .. } },
    ensures
        apply_event(apply_event(s, e), e) == apply_event(s, e),
{
    let once = apply_event(s, e);
    match e {
        ConnectionEvent::Channel { event: ChannelEvent::Join { channel_id } } => {
            assert(once.channels.insert(channel_id@, once.channels[channel_id@]) =~= once.channels);
        },
        ConnectionEvent::User { event: UserEvent::ClearList { channel_id } } => {
            match channel_id {
                Some(id) => {
                    if s.channels.contains_key(id@) {
                        assert(once.channels.insert(
                            id@,
                            ChannelView { users: Map::empty(), ..once.channels[id@] },
                        ) =~= once.channels);
                    }
                },
                None => {},
            }
        },
        _ => {},
    }
}

/// Whether an event is scoped to channels and carries the global scope.
pub open spec fn is_global_scoped(e: ConnectionEvent) -> bool {
    match e {
        ConnectionEvent::Chat { event } => event.scope() is None,
        ConnectionEvent::User { event } => !(event is Identify) && event.scope() is None,
        ConnectionEvent::Asset { event } => event.scope() is None,
        ConnectionEvent::Channel { event } => match event {
            ChannelEvent::Kick { channel_id, .. } => channel_id is None,
            ChannelEvent::Wipe { channel_id } => channel_id is None,
            _ => false,
        },
        ConnectionEvent::Status { .. } => false,
    }
}

/// An event of the global scope leaves every channel as it was. A chat event of that
/// scope changes nothing; a user or asset event changes the global user or asset map
/// as it says and nothing else.
pub proof fn lemma_global_scope_spares_channels(s: ConnectionView, e: ConnectionEvent)
    requires
        is_global_scoped(e),
    ensures
        apply_event(s, e).channels == s.channels,
        e is Chat ==> apply_event(s, e) == s,
        e matches ConnectionEvent::User { event: UserEvent::New { user, .. } }
            ==> apply_event(s, e) == (ConnectionView { global_users: s.global_users.insert(profile_key(user), user), ..s }),
        e matches ConnectionEvent::User { event: UserEvent::Update { user_id, new_user, .. } }
            ==> apply_event(s, e) == (ConnectionView { global_users: s.global_users.insert(user_id@, new_user), ..s }),
        e matches ConnectionEvent::User { event: UserEvent::Remove { user_id, .. } }
            ==> apply_event(s, e) == (ConnectionView { global_users: s.global_users.remove(user_id@), ..s }),
        e matches ConnectionEvent::User { event: UserEvent::ClearList { .. } }
            ==> apply_event(s, e) == (ConnectionView { global_users: Map::empty(), ..s }),
        e matches ConnectionEvent::Asset { event: AssetEvent::New { asset, .. } }
            ==> apply_event(s, e) == (ConnectionView { global_assets: s.global_assets.insert(asset_key(asset), asset), ..s }),
        e matches ConnectionEvent::Asset { event: AssetEvent::Update { asset_id, new_asset, .. } }
            ==> apply_event(s, e) == (ConnectionView { global_assets: s.global_assets.insert(asset_id@, new_asset), ..s }),
        e matches ConnectionEvent::Asset { event: AssetEvent::Remove { asset_id, .. } }
            ==> apply_event(s, e) == (ConnectionView { global_assets: s.global_assets.remove(asset_id@), ..s }),
        e matches ConnectionEvent::Asset { event: AssetEvent::ClearList { .. } }
            ==> apply_event(s, e) == (ConnectionView { global_assets: Map::empty(), ..s }),
        e matches ConnectionEvent::Channel { event: ChannelEvent::Wipe { .. } } ==> apply_event(s, e) == s,
{
}

} // verus!
