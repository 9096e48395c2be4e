use vstd::prelude::*;
use crate::client::projection::{apply_event, apply_events, process_event};
use crate::client::state::{
    fresh_connection, ChannelState, ChannelView, ConnectionState, ConnectionStatus,
    ConnectionView,
};
use crate::client::storage::{InMemoryStorage, StateStorage};
use crate::connection::{stream_closes, stream_events, ConnectionEvent, Delivery};
use crate::ids::{fresh_id, is_taken};
use crate::{Asset, Message, Profile};

verus! {

/// Keeps one projection per connection it follows and folds events into it.
pub struct StateClient<S: StateStorage> {
    storage: S,
}

/// Whether some channel of `s` lists user `user_id`.
pub open spec fn user_in_channels(s: ConnectionView, user_id: Seq<char>) -> bool {
    exists|k: Seq<char>| #[trigger] s.channels.contains_key(k) && s.channels[k].users.contains_key(user_id)
}

/// The messages of channel `channel_id`, empty where there is no such channel.
pub open spec fn channel_messages(s: ConnectionView, channel_id: Seq<char>) -> Seq<Message> {
    if s.channels.contains_key(channel_id) {
        s.channels[channel_id].messages
    } else {
        Seq::empty()
    }
}

/// Whether `r` lists each value of `m` once, in some order of its keys.
pub open spec fn lists_values(r: Seq<Asset>, m: Map<Seq<char>, Asset>) -> bool {
    exists|ks: Seq<Seq<char>>|
        {
            &&& ks.no_duplicates()
            &&& ks.len() == r.len()
            &&& forall|k: Seq<char>| m.contains_key(k) <==> ks.contains(k)
            &&& forall|i: int| 0 <= i < r.len() ==> (#[trigger] r[i])@ == m[ks[i]]@
        }
}

/// Copies the values of an asset map.
fn asset_values(m: &crate::strmap::StrMap<Asset>) -> (r: Vec<Asset>)
    requires
        m.wf(),
    ensures
        lists_values(r@, m@),
{
    let r = m.values();
    proof {
        m.lemma_key_order();
        let ks = m.key_order();
        assert forall|i: int| 0 <= i < r@.len() implies (#[trigger] r@[i])@ == m@[ks[i]]@ by {
            assert(cloned(m@[ks[i]], r@[i]));
        }
    }
    r
}

impl StateClient<InMemoryStorage> {
    pub fn new() -> (r: Self)
        ensures
            r.wf(),
            r.projections() == Map::<Seq<char>, ConnectionView>::empty(),
    {
        StateClient { storage: InMemoryStorage::new() }
    }
}

impl Default for StateClient<InMemoryStorage> {
    fn default() -> (r: Self)
        ensures
            r.wf(),
            r.projections() == Map::<Seq<char>, ConnectionView>::empty(),
    {
        Self::new()
    }
}

impl<S: StateStorage> StateClient<S> {
    /// The projections of the connections it follows, by connection id.
    pub closed spec fn projections(&self) -> Map<Seq<char>, ConnectionView> {
        self.storage.connections()
    }

    pub closed spec fn wf(&self) -> bool {
        self.storage.inv()
    }

    pub fn with_storage(storage: S) -> (r: Self)
        requires
            storage.inv(),
        ensures
            r.wf(),
            r.projections() == storage.connections(),
    {
        StateClient { storage }
    }

    /// Starts a fresh projection under a new random id that no projection has, and
    /// returns that id.
    pub fn track(&mut self, protocol_name: &str) -> (r: String)
        requires
            old(self).wf(),
        ensures
            final(self).wf(),
            r@.len() >= 36,
            !old(self).projections().contains_key(r@),
            final(self).projections() == old(self).projections().insert(
                r@,
                fresh_connection(r@, protocol_name@),
            ),
    {
        let taken = self.storage.list_connections();
        let connection_id = fresh_id(&taken);
        proof {
            let ks = taken@.map_values(|k: String| k@);
            if self.projections().contains_key(connection_id@) {
                assert(ks.to_set().contains(connection_id@));
                let i = choose|i: int| 0 <= i < ks.len() && #[trigger] ks[i] == connection_id@;
                assert(ks[i] == taken@[i]@);
                assert(is_taken(taken@, connection_id@));
            }
        }
        let state = ConnectionState::new(connection_id.clone(), protocol_name.to_owned());
        self.storage.insert(connection_id.clone(), state);
        connection_id
    }

    /// Drops the projection of a connection.
    pub fn untrack(&mut self, connection_id: &str)
        requires
            old(self).wf(),
        ensures
            final(self).wf(),
            final(self).projections() == old(self).projections().remove(connection_id@),
    {
        let _ = self.storage.remove(connection_id);
    }

    /// Applies one event to a known connection; an unknown id changes nothing.
    pub fn process(&mut self, connection_id: &str, event: ConnectionEvent)
        requires
            old(self).wf(),
        ensures
            final(self).wf(),
            final(self).projections() == (if old(self).projections().contains_key(connection_id@) {
                old(self).projections().insert(
                    connection_id@,
                    apply_event(old(self).projections()[connection_id@], event),
                )
            } else {
                old(self).projections()
            }),
    {
        let ghost before = self.projections();
        match self.storage.remove(connection_id) {
            Some(state) => {
                let mut state = state;
                process_event(&mut state, event);
                self.storage.insert(connection_id.to_owned(), state);
                assert(before.remove(connection_id@).insert(connection_id@, state@)
                    =~= before.insert(connection_id@, state@));
            },
            None => {
                assert(before.remove(connection_id@) =~= before);
            },
        }
    }

    /// Takes one delivery of a connection's stream: an event is applied, a lag is
    /// passed over, and only the end of the stream stops the reading. Returns whether
    /// to keep reading.
    pub fn absorb(&mut self, connection_id: &str, delivery: Delivery) -> (r: bool)
        requires
            old(self).wf(),
        ensures
            final(self).wf(),
            r == !(delivery is Closed),
            match delivery {
                Delivery::Event(e) => final(self).projections() == (if old(self).projections().contains_key(connection_id@) {
                    old(self).projections().insert(
                        connection_id@,
                        apply_event(old(self).projections()[connection_id@], e),
                    )
                } else {
                    old(self).projections()
                }),
                _ => final(self).projections() == old(self).projections(),
            },
    {
        match delivery {
            Delivery::Event(e) => {
                self.process(connection_id, e);
                true
            },
            Delivery::Lagged(_) => true,
            Delivery::Closed => false,
        }
    }

    /// Reads a whole stream of deliveries for one connection: the events before the
    /// end are applied one at a time, in order, lags are passed over. The result is
    /// the projection that applying those events as one batch gives. Returns whether
    /// to keep reading, that is whether the stream did not end.
    pub fn absorb_all(&mut self, connection_id: &str, deliveries: Vec<Delivery>) -> (r: bool)
        requires
            old(self).wf(),
        ensures
            final(self).wf(),
            r == !stream_closes(deliveries@),
            final(self).projections() == (if old(self).projections().contains_key(connection_id@) {
                old(self).projections().insert(
                    connection_id@,
                    apply_events(old(self).projections()[connection_id@], stream_events(deliveries@)),
                )
            } else {
                old(self).projections()
            }),
    {
        let ghost s0 = self.projections();
        let ghost all = deliveries@;
        let ghost mut done: Seq<ConnectionEvent> = Seq::empty();
        let mut rest = deliveries;
        assert(Seq::<ConnectionEvent>::empty() + stream_events(all) =~= stream_events(all));
        proof {
            if s0.contains_key(connection_id@) {
                assert(s0.insert(connection_id@, apply_events(s0[connection_id@], done)) =~= s0);
            }
        }
        while rest.len() > 0
            invariant
                self.wf(),
                s0 == old(self).projections(),
                all == deliveries@,
                stream_events(all) == done + stream_events(rest@),
                stream_closes(all) == stream_closes(rest@),
                self.projections() == (if s0.contains_key(connection_id@) {
                    s0.insert(connection_id@, apply_events(s0[connection_id@], done))
                } else {
                    s0
                }),
            decreases rest@.len(),
        {
            let ghost before = rest@;
            let ghost p = self.projections();
            let d = rest.remove(0);
            assert(before.drop_first() =~= rest@);
            assert(before[0] == d);
            match d {
                Delivery::Event(e) => {
                    self.process(connection_id, e);
                    proof {
                        let next = done.push(e);
                        assert(next.drop_last() =~= done);
                        assert(done + stream_events(before) =~= next + stream_events(rest@));
                        if s0.contains_key(connection_id@) {
                            assert(self.projections() =~= s0.insert(
                                connection_id@,
                                apply_events(s0[connection_id@], next),
                            ));
                        }
                        done = next;
                    }
                },
                Delivery::Lagged(_) => {},
                Delivery::Closed => {
                    assert(stream_closes(before));
                    assert(stream_events(before) =~= Seq::<ConnectionEvent>::empty());
                    assert(stream_events(all) =~= done);
                    return false;
                },
            }
        }
        assert(done + stream_events(rest@) =~= done);
        true
    }

    pub fn get_connection(&self, connection_id: &str) -> (r: Option<&ConnectionState>)
        requires
            self.wf(),
        ensures
            match r {
                Some(s) => self.projections().contains_key(connection_id@) && s@ == self.projections()[connection_id@],
                None => !self.projections().contains_key(connection_id@),
            },
    {
        self.storage.get(connection_id)
    }

    pub fn get_channel(&self, connection_id: &str, channel_id: &str) -> (r: Option<&ChannelState>)
        requires
            self.wf(),
        ensures
            match r {
                Some(c) => self.projections().contains_key(connection_id@)
                    && self.projections()[connection_id@].channels.contains_key(channel_id@) && c@
                    == self.projections()[connection_id@].channels[channel_id@],
                None => !self.projections().contains_key(connection_id@)
                    || !self.projections()[connection_id@].channels.contains_key(channel_id@),
            },
    {
        match self.storage.get(connection_id) {
            Some(state) => state.channels.get(channel_id),
            None => None,
        }
    }

    /// Looks a user up in the channels of a connection first, then among its global
    /// users.
    pub fn get_user(&self, connection_id: &str, user_id: &str) -> (r: Option<Profile>)
        requires
            self.wf(),
        ensures
            !self.projections().contains_key(connection_id@) ==> r is None,
            self.projections().contains_key(connection_id@) ==> {
                let s = self.projections()[connection_id@];
                if user_in_channels(s, user_id@) {
                    r matches Some(p) && exists|k: Seq<char>|
                        #[trigger] s.channels.contains_key(k) && s.channels[k].users.contains_key(user_id@)
                            && s.channels[k].users[user_id@] == p
                } else if s.global_users.contains_key(user_id@) {
                    r == Some(s.global_users[user_id@])
                } else {
                    r is None
                }
            },
    {
        let state = match self.storage.get(connection_id) {
            Some(state) => state,
            None => {
                return None;
            },
        };
        let ghost s = state@;
        proof {
            state.channels.lemma_key_order();
        }
        let n = state.channels.len();
        let mut i: usize = 0;
        while i < n
            invariant
                self.wf(),
                self.projections().contains_key(connection_id@),
                self.projections()[connection_id@] == s,
                state.wf(),
                s == state@,
                n == state.channels.key_order().len(),
                0 <= i <= n,
                forall|j: int|
                    0 <= j < i ==> !s.channels[#[trigger] state.channels.key_order()[j]].users.contains_key(
                        user_id@,
                    ),
                forall|k: Seq<char>|
                    state.channels@.contains_key(k) <==> state.channels.key_order().contains(k),
            decreases n - i,
        {
            let c = state.channels.value_at(i);
            let ghost k = state.channels.key_order()[i as int];
            assert(state.channels.key_order().contains(k));
            assert(state.channels@.contains_key(k));
            match c.users.get(user_id) {
                Some(p) => {
                    assert(s.channels.contains_key(k));
                    assert(s.channels[k] == c@);
                    let r = p.clone();
                    assert(s.channels[k].users[user_id@] == r);
                    return Some(r);
                },
                None => {},
            }
            i = i + 1;
        }
        proof {
            if user_in_channels(s, user_id@) {
                let k = choose|k: Seq<char>|
                    #[trigger] s.channels.contains_key(k) && s.channels[k].users.contains_key(user_id@);
                assert(state.channels.key_order().contains(k));
                let j = choose|j: int|
                    0 <= j < state.channels.key_order().len() && state.channels.key_order()[j] == k;
                assert(!s.channels[state.channels.key_order()[j]].users.contains_key(user_id@));
            }
        }
        match state.global_users.get(user_id) {
            Some(p) => Some(p.clone()),
            None => None,
        }
    }

    /// Copies the messages of a channel, in order; empty where the connection or the
    /// channel is unknown.
    pub fn get_messages(&self, connection_id: &str, channel_id: &str) -> (r: Vec<Message>)
        requires
            self.wf(),
        ensures
            !self.projections().contains_key(connection_id@) ==> r@.len() == 0,
            self.projections().contains_key(connection_id@) ==> {
                let m = channel_messages(self.projections()[connection_id@], channel_id@);
                &&& r@.len() == m.len()
                &&& forall|i: int| 0 <= i < m.len() ==> (#[trigger] r@[i])@ == m[i]@
            },
    {
        match self.get_channel(connection_id, channel_id) {
            Some(c) => {
                let r = c.messages.clone();
                assert forall|i: int| 0 <= i < r@.len() implies (#[trigger] r@[i])@ == c.messages@[i]@ by {
                    assert(cloned(c.messages@[i], r@[i]));
                }
                r
            },
            None => Vec::new(),
        }
    }

    /// Copies the assets of a channel, or the global ones where `channel_id` is `None`;
    /// empty where the connection or the channel is unknown.
    pub fn get_assets(&self, connection_id: &str, channel_id: Option<&str>) -> (r: Vec<Asset>)
        requires
            self.wf(),
        ensures
            !self.projections().contains_key(connection_id@) ==> r@.len() == 0,
            self.projections().contains_key(connection_id@) ==> {
                let s = self.projections()[connection_id@];
                match channel_id {
                    Some(c) => if s.channels.contains_key(c@) {
                        lists_values(r@, s.channels[c@].assets)
                    } else {
                        r@.len() == 0
                    },
                    None => lists_values(r@, s.global_assets),
                }
            },
    {
        let state = match self.storage.get(connection_id) {
            Some(state) => state,
            None => {
                return Vec::new();
            },
        };
        match channel_id {
            Some(cid) => match state.channels.get(cid) {
                Some(c) => asset_values(&c.assets),
                None => Vec::new(),
            },
            None => asset_values(&state.global_assets),
        }
    }

    /// The ids of the connections it follows, each once.
    pub fn list_connections(&self) -> (r: Vec<String>)
        requires
            self.wf(),
        ensures
            r@.map_values(|k: String| k@).no_duplicates(),
            r@.map_values(|k: String| k@).to_set() == self.projections().dom(),
    {
        self.storage.list_connections()
    }
}

/// A projection that has just been started is disconnected and holds no channel,
/// user or asset, whatever was there before it.
pub proof fn lemma_new_projection_is_empty(
    known: Map<Seq<char>, ConnectionView>,
    connection_id: Seq<char>,
    protocol_name: Seq<char>,
)
    ensures
        ({
            let t = known.insert(connection_id, fresh_connection(connection_id, protocol_name));
            &&& t.contains_key(connection_id)
            &&& t[connection_id].status == ConnectionStatus::Disconnected
            &&& t[connection_id].channels == Map::<Seq<char>, ChannelView>::empty()
            &&& t[connection_id].global_users == Map::<Seq<char>, Profile>::empty()
            &&& t[connection_id].global_assets == Map::<Seq<char>, Asset>::empty()
            &&& t[connection_id].current_channel is None
        }),
{
}

} // verus!
