use vstd::prelude::*;
use crate::strmap::{lemma_map_values_insert, lemma_map_values_remove, StrMap};
use crate::{Asset, Channel, ChannelType, Message, Profile};

verus! {

#[derive(Clone)]
pub struct ChannelState {
    pub channel: Channel,
    pub users: StrMap<Profile>,
    pub messages: Vec<Message>,
    pub assets: StrMap<Asset>,
}

/// A channel's state as values.
pub struct ChannelView {
    pub channel: Channel,
    pub users: Map<Seq<char>, Profile>,
    pub messages: Seq<Message>,
    pub assets: Map<Seq<char>, Asset>,
}

impl View for ChannelState {
    type V = ChannelView;

    open spec fn view(&self) -> ChannelView {
        ChannelView {
            channel: self.channel,
            users: self.users@,
            messages: self.messages@,
            assets: self.assets@,
        }
    }
}

/// A channel with no users, messages or assets.
pub open spec fn empty_channel(channel: Channel) -> ChannelView {
    ChannelView { channel, users: Map::empty(), messages: Seq::empty(), assets: Map::empty() }
}

/// The channel that a scoped event creates when its id is not known yet.
pub open spec fn default_channel(id: String) -> Channel {
    Channel { id, name: None, channel_type: ChannelType::Group }
}

impl ChannelState {
    pub open spec fn wf(&self) -> bool {
        self.users.wf() && self.assets.wf()
    }

    pub fn new(channel: Channel) -> (r: Self)
        ensures
            r.wf(),
            r@ == empty_channel(channel),
    {
        ChannelState { channel, users: StrMap::new(), messages: Vec::new(), assets: StrMap::new() }
    }
}

#[derive(Clone, Copy, Debug, PartialEq, Eq, Structural)]
pub enum ConnectionStatus {
    Disconnected,
    Connecting,
    Connected,
}

impl Default for ConnectionStatus {
    fn default() -> (r: Self)
        ensures
            r == ConnectionStatus::Disconnected,
    {
        ConnectionStatus::Disconnected
    }
}

#[derive(Clone)]
pub struct ConnectionState {
    pub connection_id: String,
    pub protocol_name: String,
    pub status: ConnectionStatus,
    pub channels: StrMap<ChannelState>,
    pub current_channel: Option<String>,
    pub global_users: StrMap<Profile>,
    pub global_assets: StrMap<Asset>,
    pub current_user_id: Option<String>,
}

/// A connection's projection as values: what every query reads.
pub struct ConnectionView {
    pub connection_id: Seq<char>,
    pub protocol_name: Seq<char>,
    pub status: ConnectionStatus,
    pub channels: Map<Seq<char>, ChannelView>,
    pub current_channel: Option<String>,
    pub global_users: Map<Seq<char>, Profile>,
    pub global_assets: Map<Seq<char>, Asset>,
    pub current_user_id: Option<String>,
}

pub open spec fn channel_view(c: ChannelState) -> ChannelView {
    c@
}

impl View for ConnectionState {
    type V = ConnectionView;

    open spec fn view(&self) -> ConnectionView {
        ConnectionView {
            connection_id: self.connection_id@,
            protocol_name: self.protocol_name@,
            status: self.status,
            channels: self.channels@.map_values(|c: ChannelState| channel_view(c)),
            current_channel: self.current_channel,
            global_users: self.global_users@,
            global_assets: self.global_assets@,
            current_user_id: self.current_user_id,
        }
    }
}

/// A connection as it starts: disconnected, with no channels, users or assets.
pub open spec fn fresh_connection(connection_id: Seq<char>, protocol_name: Seq<char>) -> ConnectionView {
    ConnectionView {
        connection_id,
        protocol_name,
        status: ConnectionStatus::Disconnected,
        channels: Map::empty(),
        current_channel: None,
        global_users: Map::empty(),
        global_assets: Map::empty(),
        current_user_id: None,
    }
}

/// The channel `id` of `s`, or the channel that would be created for it.
pub open spec fn channel_or_new(s: ConnectionView, id: String) -> ChannelView {
    if s.channels.contains_key(id@) {
        s.channels[id@]
    } else {
        empty_channel(default_channel(id))
    }
}

/// `s` with channel `id` present, created empty where it was missing.
pub open spec fn with_channel_created(s: ConnectionView, id: String) -> ConnectionView {
    ConnectionView { channels: s.channels.insert(id@, channel_or_new(s, id)), ..s }
}

impl ConnectionState {
    pub open spec fn wf(&self) -> bool {
        &&& self.channels.wf()
        &&& self.global_users.wf()
        &&& self.global_assets.wf()
        &&& forall|k: Seq<char>| #[trigger] self.channels@.contains_key(k) ==> self.channels@[k].wf()
    }

    pub fn new(connection_id: String, protocol_name: String) -> (r: Self)
        ensures
            r.wf(),
            r@ == fresh_connection(connection_id@, protocol_name@),
    {
        let r = ConnectionState {
            connection_id,
            protocol_name,
            status: ConnectionStatus::Disconnected,
            channels: StrMap::new(),
            current_channel: None,
            global_users: StrMap::new(),
            global_assets: StrMap::new(),
            current_user_id: None,
        };
        assert(r@.channels =~= Map::<Seq<char>, ChannelView>::empty());
        r
    }

    /// Takes channel `id` out of the state so that it can be changed; with `create`,
    /// a missing channel is made first.
    pub fn take_channel(&mut self, id: &String, create: bool) -> (r: Option<ChannelState>)
        requires
            old(self).wf(),
        ensures
            final(self).wf(),
            final(self)@ == (ConnectionView {
                channels: old(self)@.channels.remove(id@),
                ..old(self)@
            }),
            match r {
                Some(c) => c.wf() && c@ == channel_or_new(old(self)@, *id) && (create
                    || old(self)@.channels.contains_key(id@)),
                None => !create && !old(self)@.channels.contains_key(id@),
            },
    {
        let ghost before = self.channels@;
        let taken = self.channels.remove(id.as_str());
        proof {
            lemma_map_values_remove(before, id@, |c: ChannelState| channel_view(c));
        }
        match taken {
            Some(c) => Some(c),
            None => {
                if create {
                    let c = ChannelState::new(
                        Channel { id: id.clone(), name: None, channel_type: ChannelType::Group },
                    );
                    Some(c)
                } else {
                    None
                }
            },
        }
    }

    /// Puts a channel back under `id`.
    pub fn put_channel(&mut self, id: String, c: ChannelState)
        requires
            old(self).wf(),
            c.wf(),
        ensures
            final(self).wf(),
            final(self)@ == (ConnectionView {
                channels: old(self)@.channels.insert(id@, c@),
                ..old(self)@
            }),
    {
        let ghost before = self.channels@;
        self.channels.insert(id, c);
        proof {
            lemma_map_values_insert(before, id@, c, |c: ChannelState| channel_view(c));
        }
    }

    /// Makes sure channel `id` exists, creating an empty group channel where it was
    /// missing.
    pub fn get_or_create_channel(&mut self, id: &String)
        requires
            old(self).wf(),
        ensures
            final(self).wf(),
            final(self)@ == with_channel_created(old(self)@, *id),
    {
        let owned = id.clone();
        if !self.channels.contains_key(id.as_str()) {
            let c = ChannelState::new(
                Channel { id: owned.clone(), name: None, channel_type: ChannelType::Group },
            );
            self.put_channel(owned, c);
        } else {
            assert(old(self)@.channels.insert(id@, old(self)@.channels[id@]) =~= old(self)@.channels);
        }
    }
}

} // verus!
