use vstd::prelude::*;
use vstd::string::StringExecFns;
use crate::connection::{AssetEvent, ChannelEvent, ChatEvent, ConnectionEvent, StatusEvent, UserEvent};
use crate::utils::assets::{asset_fragments, frag_views, parse_assets};
use crate::utils::bbcode::{markup_fragments, markup_of, parse_bbcode};
use crate::{Asset, Channel, ChannelType, Message, MessageFragment, MessageStatus, MessageType, Profile};

verus! {

/// A user as a server packet describes it; the colour is already converted.
#[derive(Debug)]
pub struct WireUser {
    pub user_id: String,
    pub username: String,
    pub color: Option<[u8; 4]>,
}

/// A decoded server packet, with chat texts already turned into fragments.
#[derive(Debug)]
pub enum WirePacket {
    Pong { text: String },
    GoodAuth { user: WireUser, channel_name: String },
    BadAuth { reason: String, timestamp: i64 },
    Join { user: WireUser },
    ChatMessage { user_id: String, sequence_id: String, timestamp: i64, content: Vec<MessageFragment> },
    UserDisconnect { user_id: String },
    ChannelCreated { channel_name: String },
    ChannelUpdated { channel_name: String, new_name: String },
    ChannelDeleted { channel_name: String },
    SwitchJoin { user: WireUser },
    SwitchDeparture { user_id: String },
    ForcedSwitch { channel_name: String },
    MessageDeletion { sequence_id: String },
    ExistingUsers { users: Vec<WireUser> },
    ExistingMessage { user_id: String, sequence_id: String, timestamp: i64, content: Vec<MessageFragment> },
    Channels { names: Vec<String> },
    ContextClearing { message_history: bool, user_list: bool, channel_list: bool },
    ForcedDisconnect { ban: bool },
    UserUpdate { user: WireUser },
}

/// What the reader remembers between packets.
#[derive(Debug)]
pub struct ReaderState {
    /// The channel that scoped events go to; one per session.
    pub current_channel: Option<String>,
    /// Whether the catalog assets were already announced.
    pub assets_sent: bool,
}

/// What the reader knows of the session.
#[derive(Debug)]
pub struct ReaderConfig {
    /// Picture link template, with `{uid}` standing for the user id.
    pub pfp_url: Option<String>,
    /// The assets fetched from the server catalog.
    pub assets: Vec<Asset>,
}

impl ReaderState {
    pub fn new() -> (r: Self)
        ensures
            r.current_channel is None,
            !r.assets_sent,
    {
        ReaderState { current_channel: None, assets_sent: false }
    }
}

/// What `str::replace` returns.
pub uninterp spec fn replaced(s: Seq<char>, from: Seq<char>, to: Seq<char>) -> Seq<char>;

/// Relies on str::replace: every occurrence of `from` in `s` replaced by `to`.
#[verifier::external_body]
fn replace_all(s: &str, from: &str, to: &str) -> (r: String)
    ensures
        r@ == replaced(s@, from@, to@),
{
    s.replace(from, to)
}

pub open spec fn digit_char(d: int) -> char {
    if d == 0 { '0' } else if d == 1 { '1' } else if d == 2 { '2' } else if d == 3 { '3' }
    else if d == 4 { '4' } else if d == 5 { '5' } else if d == 6 { '6' } else if d == 7 { '7' }
    else if d == 8 { '8' } else { '9' }
}

/// The decimal digits of a natural number.
pub open spec fn digits_of(n: nat) -> Seq<char>
    decreases n,
{
    if n < 10 {
        seq![digit_char(n as int)]
    } else {
        digits_of(n / 10).push(digit_char((n % 10) as int))
    }
}

/// An integer in decimal, with a leading `-` when negative.
pub open spec fn decimal_of(n: int) -> Seq<char> {
    if n < 0 {
        seq!['-'] + digits_of((-n) as nat)
    } else {
        digits_of(n as nat)
    }
}

/// Relies on the `Display` of `i64`: the number in decimal.
#[verifier::external_body]
fn decimal(n: i64) -> (r: String)
    ensures
        r@ == decimal_of(n as int),
{
    n.to_string()
}

/// The picture link of a user: the template with the user id put in.
pub open spec fn picture_of(template: Option<String>, user_id: Seq<char>) -> Option<Seq<char>> {
    match template {
        Some(t) => Some(replaced(t@, "{uid}"@, user_id)),
        None => None,
    }
}

fn picture_for(template: &Option<String>, user_id: &str) -> (r: Option<String>)
    ensures
        match r {
            Some(p) => picture_of(*template, user_id@) == Some(p@),
            None => picture_of(*template, user_id@) is None,
        },
{
    match template {
        Some(t) => Some(replace_all(t.as_str(), "{uid}", user_id)),
        None => None,
    }
}

/// Whether `p` is the profile of a wire user, with the picture the template gives.
pub open spec fn profile_of(p: Profile, u: WireUser, picture: Option<Seq<char>>) -> bool {
    &&& p.id == Some(u.user_id)
    &&& p.username == Some(u.username)
    &&& p.display_name is None
    &&& p.color == u.color
    &&& match (p.picture, picture) {
        (Some(a), Some(b)) => a@ == b,
        (None, None) => true,
        _ => false,
    }
}

/// Whether `e` announces user `u` in scope `scope`.
pub open spec fn announces_user(
    e: ConnectionEvent,
    scope: Option<String>,
    u: WireUser,
    picture: Option<Seq<char>>,
) -> bool {
    e matches ConnectionEvent::User { event: UserEvent::New { channel_id, user } } && channel_id
        == scope && profile_of(user, u, picture)
}

fn user_profile(u: &WireUser, with_picture: bool, template: &Option<String>) -> (r: Profile)
    ensures
        profile_of(r, *u, if with_picture { picture_of(*template, u.user_id@) } else { None }),
{
    let picture = if with_picture {
        picture_for(template, u.user_id.as_str())
    } else {
        None
    };
    Profile {
        id: Some(u.user_id.clone()),
        username: Some(u.username.clone()),
        display_name: None,
        color: u.color,
        picture,
    }
}

/// The id that the server signs its own messages with.
pub open spec fn is_server_sender(user_id: Seq<char>) -> bool {
    user_id == "-1"@
}

/// Seconds since the epoch as nanoseconds, held at the bounds of `i64`.
pub open spec fn nanos_of(seconds: i64) -> i64 {
    if seconds * 1_000_000_000 > i64::MAX {
        i64::MAX
    } else if seconds * 1_000_000_000 < i64::MIN {
        i64::MIN
    } else {
        (seconds * 1_000_000_000) as i64
    }
}

fn seconds_to_nanos(seconds: i64) -> (r: i64)
    ensures
        r == nanos_of(seconds),
{
    match seconds.checked_mul(1_000_000_000) {
        Some(n) => n,
        None => if seconds < 0 {
            i64::MIN
        } else {
            i64::MAX
        },
    }
}

/// The message that a chat packet carries.
pub open spec fn message_of(
    user_id: String,
    sequence_id: String,
    timestamp: i64,
    content: Vec<MessageFragment>,
) -> Message {
    Message {
        id: Some(sequence_id),
        sender_id: Some(user_id),
        content,
        timestamp: nanos_of(timestamp),
        message_type: if is_server_sender(user_id@) {
            MessageType::Server
        } else {
            MessageType::Normal
        },
        status: MessageStatus::Delivered,
    }
}

fn chat_message(user_id: String, sequence_id: String, timestamp: i64, content: Vec<MessageFragment>) -> (r: Message)
    ensures
        r == message_of(user_id, sequence_id, timestamp, content),
{
    let server = user_id == "-1".to_owned();
    Message {
        id: Some(sequence_id),
        sender_id: Some(user_id),
        content,
        timestamp: seconds_to_nanos(timestamp),
        message_type: if server {
            MessageType::Server
        } else {
            MessageType::Normal
        },
        status: MessageStatus::Delivered,
    }
}

pub open spec fn group_channel(id: String, name: Option<String>) -> Channel {
    Channel { id, name, channel_type: ChannelType::Group }
}

/// Whether `events` are what the reader publishes for `packet` in a session whose
/// scope was `scope`, and whether `next` is the scope afterwards. The catalog assets
/// that a successful join announces are left out here.
pub open spec fn packet_outcome(
    scope: Option<String>,
    cfg: ReaderConfig,
    packet: WirePacket,
    next: Option<String>,
    events: Seq<ConnectionEvent>,
) -> bool {
    match packet {
        WirePacket::Pong { text } => next == scope && events == seq![
            ConnectionEvent::Status { event: StatusEvent::Ping { artifact: Some(text) } },
        ],
        WirePacket::GoodAuth { user, channel_name } => {
            &&& next == Some(channel_name)
            &&& events.len() == 6
            &&& events[0] == ConnectionEvent::Status { event: StatusEvent::Connected { artifact: None } }
            &&& events[1] == ConnectionEvent::Channel {
                event: ChannelEvent::New { channel: group_channel(channel_name, Some(channel_name)) },
            }
            &&& events[2] == ConnectionEvent::Channel { event: ChannelEvent::Join { channel_id: channel_name } }
            &&& events[3] == ConnectionEvent::Channel { event: ChannelEvent::Switch { channel_id: channel_name } }
            &&& announces_user(events[4], Some(channel_name), user, picture_of(cfg.pfp_url, user.user_id@))
            &&& events[5] == ConnectionEvent::User { event: UserEvent::Identify { user_id: user.user_id } }
        },
        WirePacket::BadAuth { reason, timestamp } => {
            &&& next == scope
            &&& events.len() == 1
            &&& events[0] matches ConnectionEvent::Status {
                event: StatusEvent::Disconnected { artifact: Some(a) },
            } && a@ == decimal_of(timestamp as int) + ": "@ + reason@
        },
        WirePacket::Join { user } => next == scope && events.len() == 1 && announces_user(
            events[0],
            scope,
            user,
            picture_of(cfg.pfp_url, user.user_id@),
        ),
        WirePacket::ChatMessage { user_id, sequence_id, timestamp, content } => next == scope
            && events == seq![
            ConnectionEvent::Chat {
                event: ChatEvent::New {
                    channel_id: scope,
                    message: message_of(user_id, sequence_id, timestamp, content),
                },
            },
        ],
        WirePacket::UserDisconnect { user_id } => next == scope && events == seq![
            ConnectionEvent::User { event: UserEvent::Remove { channel_id: scope, user_id } },
        ],
        WirePacket::ChannelCreated { channel_name } => next == scope && events == seq![
            ConnectionEvent::Channel {
                event: ChannelEvent::New { channel: group_channel(channel_name, None) },
            },
        ],
        WirePacket::ChannelUpdated { channel_name, new_name } => next == scope && events == seq![
            ConnectionEvent::Channel {
                event: ChannelEvent::Update {
                    channel_id: channel_name,
                    new_channel: group_channel(new_name, None),
                },
            },
        ],
        WirePacket::ChannelDeleted { channel_name } => next == scope && events == seq![
            ConnectionEvent::Channel { event: ChannelEvent::Remove { channel_id: channel_name } },
        ],
        WirePacket::SwitchJoin { user } => next == scope && events.len() == 1 && announces_user(
            events[0],
            scope,
            user,
            None,
        ),
        WirePacket::SwitchDeparture { user_id } => next == scope && events == seq![
            ConnectionEvent::User { event: UserEvent::Remove { channel_id: scope, user_id } },
        ],
        WirePacket::ForcedSwitch { channel_name } => next == Some(channel_name) && events == seq![
            ConnectionEvent::Channel { event: ChannelEvent::Switch { channel_id: channel_name } },
        ],
        WirePacket::MessageDeletion { sequence_id } => next == scope && events == seq![
            ConnectionEvent::Chat {
                event: ChatEvent::Remove { channel_id: scope, message_id: sequence_id },
            },
        ],
        WirePacket::ExistingUsers { users } => {
            &&& next == scope
            &&& events.len() == users@.len()
            &&& forall|i: int|
                0 <= i < events.len() ==> announces_user(
                    #[trigger] events[i],
                    scope,
                    users@[i],
                    picture_of(cfg.pfp_url, users@[i].user_id@),
                )
        },
        WirePacket::ExistingMessage { user_id, sequence_id, timestamp, content } => next == scope
            && events == seq![
            ConnectionEvent::Chat {
                event: ChatEvent::New {
                    channel_id: scope,
                    message: message_of(user_id, sequence_id, timestamp, content),
                },
            },
        ],
        WirePacket::Channels { names } => {
            &&& next == scope
            &&& events.len() == names@.len()
            &&& forall|i: int|
                0 <= i < events.len() ==> #[trigger] events[i] == (ConnectionEvent::Channel {
                    event: ChannelEvent::New { channel: group_channel(names@[i], None) },
                })
        },
        WirePacket::ContextClearing { message_history, user_list, channel_list } => {
            let a: Seq<ConnectionEvent> = if message_history {
                seq![ConnectionEvent::Channel { event: ChannelEvent::Wipe { channel_id: scope } }]
            } else {
                Seq::empty()
            };
            let b: Seq<ConnectionEvent> = if user_list {
                seq![ConnectionEvent::User { event: UserEvent::ClearList { channel_id: scope } }]
            } else {
                Seq::empty()
            };
            let c: Seq<ConnectionEvent> = if channel_list {
                seq![ConnectionEvent::Channel { event: ChannelEvent::ClearList }]
            } else {
                Seq::empty()
            };
            next == scope && events == a + b + c
        },
        WirePacket::ForcedDisconnect { ban } => next == scope && events == seq![
            ConnectionEvent::Channel {
                event: ChannelEvent::Kick { channel_id: scope, reason: None, ban },
            },
        ],
        WirePacket::UserUpdate { user } => {
            &&& next == scope
            &&& events.len() == 1
            &&& events[0] matches ConnectionEvent::User {
                event: UserEvent::Update { channel_id, user_id, new_user },
            } && channel_id == scope && user_id == user.user_id && profile_of(
                new_user,
                user,
                picture_of(cfg.pfp_url, user.user_id@),
            )
        },
    }
}

/// Whether `events` announce every catalog asset, in order, in scope `scope`.
pub open spec fn announces_assets(events: Seq<ConnectionEvent>, scope: Option<String>, assets: Seq<Asset>) -> bool {
    &&& events.len() == assets.len()
    &&& forall|i: int|
        0 <= i < events.len() ==> (#[trigger] events[i] matches ConnectionEvent::Asset {
            event: AssetEvent::New { channel_id, asset },
        } && channel_id == scope && asset@ == assets[i]@)
}

fn push_user(out: &mut Vec<ConnectionEvent>, scope: &Option<String>, u: &WireUser, with_picture: bool, template: &Option<String>)
    ensures
        final(out)@.len() == old(out)@.len() + 1,
        final(out)@.drop_last() == old(out)@,
        announces_user(
            final(out)@.last(),
            *scope,
            *u,
            if with_picture { picture_of(*template, u.user_id@) } else { None },
        ),
{
    let p = user_profile(u, with_picture, template);
    out.push(ConnectionEvent::User { event: UserEvent::New { channel_id: scope.clone(), user: p } });
    assert(final(out)@.drop_last() =~= old(out)@);
}

/// Turns one server packet into the events it stands for, in publishing order, and
/// keeps the reader's scope: a successful join or a forced switch moves it before
/// anything else is published. The first successful join of a session with catalog
/// assets also announces each of them.
pub fn events_for_packet(state: &mut ReaderState, cfg: &ReaderConfig, packet: WirePacket) -> (r: Vec<ConnectionEvent>)
    ensures
        ({
            let announce = packet is GoodAuth && !old(state).assets_sent && cfg.assets@.len() > 0;
            let base_len = if announce { r@.len() - cfg.assets@.len() } else { r@.len() as int };
            &&& 0 <= base_len <= r@.len()
            &&& packet_outcome(
                old(state).current_channel,
                *cfg,
                packet,
                final(state).current_channel,
                r@.subrange(0, base_len),
            )
            &&& announce ==> announces_assets(
                r@.subrange(base_len, r@.len() as int),
                final(state).current_channel,
                cfg.assets@,
            )
            &&& final(state).assets_sent == (old(state).assets_sent || announce)
        }),
{
    let ghost pkt = packet;
    let mut out: Vec<ConnectionEvent> = Vec::new();
    let scope = state.current_channel.clone();
    match packet {
        WirePacket::Pong { text } => {
            out.push(ConnectionEvent::Status { event: StatusEvent::Ping { artifact: Some(text) } });
        },
        WirePacket::GoodAuth { user, channel_name } => {
            state.current_channel = Some(channel_name.clone());
            let here = Some(channel_name.clone());
            out.push(ConnectionEvent::Status { event: StatusEvent::Connected { artifact: None } });
            out.push(
                ConnectionEvent::Channel {
                    event: ChannelEvent::New {
                        channel: Channel {
                            id: channel_name.clone(),
                            name: Some(channel_name.clone()),
                            channel_type: ChannelType::Group,
                        },
                    },
                },
            );
            out.push(ConnectionEvent::Channel { event: ChannelEvent::Join { channel_id: channel_name.clone() } });
            out.push(ConnectionEvent::Channel { event: ChannelEvent::Switch { channel_id: channel_name.clone() } });
            let ghost first = out@;
            push_user(&mut out, &here, &user, true, &cfg.pfp_url);
            let ghost e4 = out@.last();
            let ghost second = out@;
            out.push(ConnectionEvent::User { event: UserEvent::Identify { user_id: user.user_id.clone() } });
            let ghost base = out@;
            assert(second.drop_last() == first);
            assert forall|k: int| 0 <= k < 4 implies base[k] == first[k] by {
                assert(base[k] == second[k]);
                assert(second[k] == second.drop_last()[k]);
            }
            assert(base[4] == e4);
            assert(packet_outcome(scope, *cfg, pkt, state.current_channel, base));
            if !state.assets_sent && cfg.assets.len() > 0 {
                let mut i: usize = 0;
                while i < cfg.assets.len()
                    invariant
                        0 <= i <= cfg.assets@.len(),
                        out@.len() == base.len() + i,
                        out@.subrange(0, base.len() as int) == base,
                        announces_assets(out@.subrange(base.len() as int, out@.len() as int), here, cfg.assets@.subrange(0, i as int)),
                    decreases cfg.assets.len() - i,
                {
                    let a = cfg.assets[i].clone();
                    let ghost before = out@;
                    out.push(ConnectionEvent::Asset { event: AssetEvent::New { channel_id: here.clone(), asset: a } });
                    assert(out@.subrange(0, base.len() as int) =~= before.subrange(0, base.len() as int));
                    assert(out@.subrange(base.len() as int, out@.len() as int) =~= before.subrange(base.len() as int, before.len() as int).push(out@.last()));
                    i = i + 1;
                }
                state.assets_sent = true;
                assert(cfg.assets@.subrange(0, cfg.assets@.len() as int) =~= cfg.assets@);
            }
            assert(out@.subrange(0, base.len() as int) == base);
        },
        WirePacket::BadAuth { reason, timestamp } => {
            let text = decimal(timestamp).concat(": ").concat(reason.as_str());
            proof {
                assert(text@ == decimal_of(timestamp as int) + ": "@ + reason@);
            }
            out.push(ConnectionEvent::Status { event: StatusEvent::Disconnected { artifact: Some(text) } });
        },
        WirePacket::Join { user } => {
            push_user(&mut out, &scope, &user, true, &cfg.pfp_url);
        },
        WirePacket::ChatMessage { user_id, sequence_id, timestamp, content } => {
            let m = chat_message(user_id, sequence_id, timestamp, content);
            out.push(ConnectionEvent::Chat { event: ChatEvent::New { channel_id: scope, message: m } });
        },
        WirePacket::UserDisconnect { user_id } => {
            out.push(ConnectionEvent::User { event: UserEvent::Remove { channel_id: scope, user_id } });
        },
        WirePacket::ChannelCreated { channel_name } => {
            out.push(
                ConnectionEvent::Channel {
                    event: ChannelEvent::New {
                        channel: Channel { id: channel_name, name: None, channel_type: ChannelType::Group },
                    },
                },
            );
        },
        WirePacket::ChannelUpdated { channel_name, new_name } => {
            out.push(
                ConnectionEvent::Channel {
                    event: ChannelEvent::Update {
                        channel_id: channel_name,
                        new_channel: Channel { id: new_name, name: None, channel_type: ChannelType::Group },
                    },
                },
            );
        },
        WirePacket::ChannelDeleted { channel_name } => {
            out.push(ConnectionEvent::Channel { event: ChannelEvent::Remove { channel_id: channel_name } });
        },
        WirePacket::SwitchJoin { user } => {
            push_user(&mut out, &scope, &user, false, &cfg.pfp_url);
        },
        WirePacket::SwitchDeparture { user_id } => {
            out.push(ConnectionEvent::User { event: UserEvent::Remove { channel_id: scope, user_id } });
        },
        WirePacket::ForcedSwitch { channel_name } => {
            state.current_channel = Some(channel_name.clone());
            out.push(ConnectionEvent::Channel { event: ChannelEvent::Switch { channel_id: channel_name } });
        },
        WirePacket::MessageDeletion { sequence_id } => {
            out.push(ConnectionEvent::Chat { event: ChatEvent::Remove { channel_id: scope, message_id: sequence_id } });
        },
        WirePacket::ExistingUsers { users } => {
            let mut i: usize = 0;
            while i < users.len()
                invariant
                    0 <= i <= users@.len(),
                    out@.len() == i,
                    forall|j: int|
                        0 <= j < i ==> announces_user(
                            #[trigger] out@[j],
                            scope,
                            users@[j],
                            picture_of(cfg.pfp_url, users@[j].user_id@),
                        ),
                decreases users.len() - i,
            {
                let ghost before = out@;
                push_user(&mut out, &scope, &users[i], true, &cfg.pfp_url);
                assert forall|j: int| 0 <= j < i implies out@[j] == before[j] by {
                    assert(out@[j] == out@.drop_last()[j]);
                }
                assert(out@[i as int] == out@.last());
                assert forall|j: int| 0 <= j < i + 1 implies announces_user(
                    #[trigger] out@[j],
                    scope,
                    users@[j],
                    picture_of(cfg.pfp_url, users@[j].user_id@),
                ) by {
                    if j < i {
                        assert(out@[j] == before[j]);
                    }
                }
                i = i + 1;
            }
        },
        WirePacket::ExistingMessage { user_id, sequence_id, timestamp, content } => {
            let m = chat_message(user_id, sequence_id, timestamp, content);
            out.push(ConnectionEvent::Chat { event: ChatEvent::New { channel_id: scope, message: m } });
        },
        WirePacket::Channels { names } => {
            let mut i: usize = 0;
            while i < names.len()
                invariant
                    0 <= i <= names@.len(),
                    out@.len() == i,
                    forall|j: int|
                        0 <= j < i ==> #[trigger] out@[j] == (ConnectionEvent::Channel {
                            event: ChannelEvent::New { channel: group_channel(names@[j], None) },
                        }),
                decreases names.len() - i,
            {
                out.push(
                    ConnectionEvent::Channel {
                        event: ChannelEvent::New {
                            channel: Channel { id: names[i].clone(), name: None, channel_type: ChannelType::Group },
                        },
                    },
                );
                i = i + 1;
            }
        },
        WirePacket::ContextClearing { message_history, user_list, channel_list } => {
            if message_history {
                out.push(ConnectionEvent::Channel { event: ChannelEvent::Wipe { channel_id: scope.clone() } });
            }
            if user_list {
                out.push(ConnectionEvent::User { event: UserEvent::ClearList { channel_id: scope.clone() } });
            }
            if channel_list {
                out.push(ConnectionEvent::Channel { event: ChannelEvent::ClearList });
            }
            proof {
                let a: Seq<ConnectionEvent> = if message_history {
                    seq![ConnectionEvent::Channel { event: ChannelEvent::Wipe { channel_id: scope } }]
                } else {
                    Seq::empty()
                };
                let b: Seq<ConnectionEvent> = if user_list {
                    seq![ConnectionEvent::User { event: UserEvent::ClearList { channel_id: scope } }]
                } else {
                    Seq::empty()
                };
                let c: Seq<ConnectionEvent> = if channel_list {
                    seq![ConnectionEvent::Channel { event: ChannelEvent::ClearList }]
                } else {
                    Seq::empty()
                };
                assert(out@ =~= a + b + c);
            }
        },
        WirePacket::ForcedDisconnect { ban } => {
            out.push(ConnectionEvent::Channel { event: ChannelEvent::Kick { channel_id: scope, reason: None, ban } });
        },
        WirePacket::UserUpdate { user } => {
            let p = user_profile(&user, true, &cfg.pfp_url);
            out.push(
                ConnectionEvent::User {
                    event: UserEvent::Update { channel_id: scope, user_id: user.user_id.clone(), new_user: p },
                },
            );
        },
    }
    proof {
        if !(pkt is GoodAuth && !old(state).assets_sent && cfg.assets@.len() > 0) {
            assert(out@.subrange(0, out@.len() as int) =~= out@);
        }
    }
    out
}

/// Fragments with each text fragment replaced by what asset matching makes of it.
pub open spec fn with_assets(
    fs: Seq<(int, Seq<char>, Seq<char>)>,
    assets: Seq<Asset>,
) -> Seq<(int, Seq<char>, Seq<char>)>
    decreases fs.len(),
{
    if fs.len() == 0 {
        Seq::empty()
    } else {
        with_assets(fs.drop_last(), assets) + if fs.last().0 == 0 {
            asset_fragments(fs.last().1, assets)
        } else {
            seq![fs.last()]
        }
    }
}

/// The content of a chat text: its markup turned into fragments, then the catalog
/// assets found in each text fragment.
pub fn message_content(text: &str, assets: &Vec<Asset>) -> (r: Vec<MessageFragment>)
    ensures
        frag_views(r@) == with_assets(markup_fragments(markup_of(text@)), assets@),
{
    let frags = parse_bbcode(text);
    let ghost fs = frag_views(frags@);
    let mut out: Vec<MessageFragment> = Vec::new();
    let mut i: usize = 0;
    assert(fs.subrange(0, 0) =~= Seq::<(int, Seq<char>, Seq<char>)>::empty());
    assert(frag_views(out@) =~= Seq::<(int, Seq<char>, Seq<char>)>::empty());
    while i < frags.len()
        invariant
            0 <= i <= frags@.len(),
            fs == frag_views(frags@),
            frag_views(out@) == with_assets(fs.subrange(0, i as int), assets@),
        decreases frags.len() - i,
    {
        let ghost start = out@;
        let ghost next = fs.subrange(0, i + 1);
        assert(next.drop_last() =~= fs.subrange(0, i as int));
        assert(next.last() == fs[i as int]);
        assert(fs[i as int] == crate::fragment_view(frags@[i as int]));
        match &frags[i] {
            MessageFragment::Text(t) => {
                let parts = parse_assets(t.as_str(), assets);
                let mut k: usize = 0;
                while k < parts.len()
                    invariant
                        0 <= k <= parts@.len(),
                        out@ == start + parts@.subrange(0, k as int),
                    decreases parts.len() - k,
                {
                    out.push(parts[k].clone());
                    assert(out@ =~= start + parts@.subrange(0, k + 1));
                    k = k + 1;
                }
                assert(parts@.subrange(0, parts@.len() as int) =~= parts@);
                assert(frag_views(out@) =~= frag_views(start) + frag_views(parts@));
            },
            other => {
                out.push(other.clone());
                assert(frag_views(out@) =~= frag_views(start).push(fs[i as int]));
            },
        }
        i = i + 1;
    }
    assert(fs.subrange(0, frags@.len() as int) =~= fs);
    out
}

} // verus!
