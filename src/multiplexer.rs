use vstd::prelude::*;
use crate::connection::{
    stream_closes, stream_events, AssetEvent, ChannelEvent, ChatEvent, ConnectionEvent, Delivery,
    UserEvent,
};
use crate::strmap::{lemma_map_values_insert, lemma_map_values_remove, StrMap};

verus! {

pub type AccountId = String;

pub type ConnectionId = String;

/// The account, connection and channel that outbound messages go to.
#[derive(Clone, Debug)]
pub struct SelectedContext {
    pub account: AccountId,
    pub connection: ConnectionId,
    pub channel_id: Option<String>,
}

/// What a connection has said about one channel scope: its chat, user and asset
/// events, in arrival order.
#[derive(Clone)]
pub struct ChannelState {
    pub chat_history: Vec<ChatEvent>,
    pub user_list: Vec<UserEvent>,
    pub asset_list: Vec<AssetEvent>,
}

/// A scope's events as sequences.
pub struct ScopeView {
    pub chat_history: Seq<ChatEvent>,
    pub user_list: Seq<UserEvent>,
    pub asset_list: Seq<AssetEvent>,
}

impl View for ChannelState {
    type V = ScopeView;

    open spec fn view(&self) -> ScopeView {
        ScopeView {
            chat_history: self.chat_history@,
            user_list: self.user_list@,
            asset_list: self.asset_list@,
        }
    }
}

pub open spec fn empty_scope() -> ScopeView {
    ScopeView { chat_history: Seq::empty(), user_list: Seq::empty(), asset_list: Seq::empty() }
}

impl ChannelState {
    pub fn new() -> (r: Self)
        ensures
            r@ == empty_scope(),
    {
        ChannelState { chat_history: Vec::new(), user_list: Vec::new(), asset_list: Vec::new() }
    }
}

/// The scopes of one connection: the global one and one per channel id.
struct Scopes {
    global: Option<ChannelState>,
    channels: StrMap<ChannelState>,
}

impl Scopes {
    closed spec fn view(&self) -> Map<Option<Seq<char>>, ScopeView> {
        Map::new(
            |k: Option<Seq<char>>|
                match k {
                    None => self.global is Some,
                    Some(id) => self.channels@.contains_key(id),
                },
            |k: Option<Seq<char>>|
                match k {
                    None => self.global.unwrap()@,
                    Some(id) => self.channels@[id]@,
                },
        )
    }

    closed spec fn wf(&self) -> bool {
        self.channels.wf()
    }
}

struct AccountClient {
    connections: StrMap<Scopes>,
    selected_connection: Option<ConnectionId>,
}

/// An account as values: the scopes of each of its connections, and the connection
/// added last.
pub struct AccountView {
    pub connections: Map<Seq<char>, Map<Option<Seq<char>>, ScopeView>>,
    pub selected_connection: Option<ConnectionId>,
}

spec fn scopes_of(s: Scopes) -> Map<Option<Seq<char>>, ScopeView> {
    s.view()
}

spec fn account_view(a: AccountClient) -> AccountView {
    AccountView {
        connections: a.connections@.map_values(|s: Scopes| scopes_of(s)),
        selected_connection: a.selected_connection,
    }
}

impl AccountClient {
    closed spec fn wf(&self) -> bool {
        &&& self.connections.wf()
        &&& forall|k: Seq<char>| #[trigger] self.connections@.contains_key(k) ==> self.connections@[k].wf()
    }
}

/// The scope an event is filed under: its channel, or the global scope.
pub open spec fn scope_of(e: ConnectionEvent) -> Option<String> {
    match e {
        ConnectionEvent::Chat { event } => event.scope(),
        ConnectionEvent::User { event } => event.scope(),
        ConnectionEvent::Asset { event } => event.scope(),
        ConnectionEvent::Channel { event } => match event {
            ChannelEvent::New { channel } => Some(channel.id),
            ChannelEvent::Update { channel_id, .. } => Some(channel_id),
            ChannelEvent::Remove { channel_id } => Some(channel_id),
            ChannelEvent::Join { channel_id } => Some(channel_id),
            ChannelEvent::Leave { channel_id } => Some(channel_id),
            ChannelEvent::Switch { channel_id } => Some(channel_id),
            ChannelEvent::Kick { channel_id, .. } => channel_id,
            ChannelEvent::Wipe { channel_id } => channel_id,
            ChannelEvent::ClearList => None,
        },
        ConnectionEvent::Status { .. } => None,
    }
}

pub open spec fn opt_view(o: Option<String>) -> Option<Seq<char>> {
    match o {
        Some(s) => Some(s@),
        None => None,
    }
}

/// A scope after one more event: chat, user and asset events are appended to their
/// lists, the others leave it as it was.
pub open spec fn record_in_scope(v: ScopeView, e: ConnectionEvent) -> ScopeView {
    match e {
        ConnectionEvent::Chat { event } => ScopeView { chat_history: v.chat_history.push(event), ..v },
        ConnectionEvent::User { event } => ScopeView { user_list: v.user_list.push(event), ..v },
        ConnectionEvent::Asset { event } => ScopeView { asset_list: v.asset_list.push(event), ..v },
        _ => v,
    }
}

/// The scopes of a connection after one more event: the event's scope is made when
/// missing, then the event is recorded in it.
pub open spec fn record_event_in(
    scopes: Map<Option<Seq<char>>, ScopeView>,
    e: ConnectionEvent,
) -> Map<Option<Seq<char>>, ScopeView> {
    let k = opt_view(scope_of(e));
    let v = if scopes.contains_key(k) {
        scopes[k]
    } else {
        empty_scope()
    };
    scopes.insert(k, record_in_scope(v, e))
}

/// The scopes of a connection after a sequence of events, filed one at a time in order.
pub open spec fn record_events_in(
    scopes: Map<Option<Seq<char>>, ScopeView>,
    es: Seq<ConnectionEvent>,
) -> Map<Option<Seq<char>>, ScopeView>
    decreases es.len(),
{
    if es.len() == 0 {
        scopes
    } else {
        record_event_in(record_events_in(scopes, es.drop_last()), es.last())
    }
}

/// The accounts after the events `es` of connection `connection` of `account` are
/// filed; unknown accounts and connections change nothing.
pub open spec fn with_events_filed(
    accounts: Map<Seq<char>, AccountView>,
    account: Seq<char>,
    connection: Seq<char>,
    es: Seq<ConnectionEvent>,
) -> Map<Seq<char>, AccountView> {
    if accounts.contains_key(account) && accounts[account].connections.contains_key(connection) {
        accounts.insert(
            account,
            AccountView {
                connections: accounts[account].connections.insert(
                    connection,
                    record_events_in(accounts[account].connections[connection], es),
                ),
                ..accounts[account]
            },
        )
    } else {
        accounts
    }
}

/// The scope an event is filed under.
pub fn event_scope(e: &ConnectionEvent) -> (r: Option<String>)
    ensures
        r == scope_of(*e),
{
    match e {
        ConnectionEvent::Chat { event } => event.channel_id().clone(),
        ConnectionEvent::User { event } => event.channel_id().clone(),
        ConnectionEvent::Asset { event } => event.channel_id().clone(),
        ConnectionEvent::Channel { event } => match event {
            ChannelEvent::New { channel } => Some(channel.id.clone()),
            ChannelEvent::Update { channel_id, .. } => Some(channel_id.clone()),
            ChannelEvent::Remove { channel_id } => Some(channel_id.clone()),
            ChannelEvent::Join { channel_id } => Some(channel_id.clone()),
            ChannelEvent::Leave { channel_id } => Some(channel_id.clone()),
            ChannelEvent::Switch { channel_id } => Some(channel_id.clone()),
            ChannelEvent::Kick { channel_id, .. } => channel_id.clone(),
            ChannelEvent::Wipe { channel_id } => channel_id.clone(),
            ChannelEvent::ClearList => None,
        },
        ConnectionEvent::Status { .. } => None,
    }
}

fn record_in(c: &mut ChannelState, e: ConnectionEvent)
    ensures
        final(c)@ == record_in_scope(old(c)@, e),
{
    match e {
        ConnectionEvent::Chat { event } => c.chat_history.push(event),
        ConnectionEvent::User { event } => c.user_list.push(event),
        ConnectionEvent::Asset { event } => c.asset_list.push(event),
        _ => {},
    }
}

impl Scopes {
    fn new() -> (r: Self)
        ensures
            r.wf(),
            r.view() == Map::<Option<Seq<char>>, ScopeView>::empty(),
    {
        let r = Scopes { global: None, channels: StrMap::new() };
        assert(r.view() =~= Map::<Option<Seq<char>>, ScopeView>::empty());
        r
    }

    fn record(&mut self, e: ConnectionEvent)
        requires
            old(self).wf(),
        ensures
            final(self).wf(),
            final(self).view() == record_event_in(old(self).view(), e),
    {
        let key = event_scope(&e);
        let ghost before = self.view();
        match key {
            None => {
                let mut c = match self.global.take() {
                    Some(c) => c,
                    None => ChannelState::new(),
                };
                record_in(&mut c, e);
                self.global = Some(c);
                assert(self.view() =~= record_event_in(before, e));
            },
            Some(id) => {
                let mut c = match self.channels.remove(id.as_str()) {
                    Some(c) => c,
                    None => ChannelState::new(),
                };
                record_in(&mut c, e);
                self.channels.insert(id, c);
                assert(self.view() =~= record_event_in(before, e));
            },
        }
    }

    fn get(&self, key: &Option<String>) -> (r: Option<&ChannelState>)
        requires
            self.wf(),
        ensures
            match r {
                Some(c) => self.view().contains_key(opt_view(*key)) && c@ == self.view()[opt_view(*key)],
                None => !self.view().contains_key(opt_view(*key)),
            },
    {
        match key {
            None => match &self.global {
                Some(c) => Some(c),
                None => None,
            },
            Some(id) => self.channels.get(id.as_str()),
        }
    }

    fn keys(&self) -> (r: Vec<Option<String>>)
        requires
            self.wf(),
        ensures
            forall|k: Option<Seq<char>>| self.view().contains_key(k) <==> exists|i: int|
                0 <= i < r@.len() && opt_view(#[trigger] r@[i]) == k,
    {
        let names = self.channels.keys();
        let mut out: Vec<Option<String>> = Vec::new();
        if self.global.is_some() {
            out.push(None);
        }
        let ghost start = out@.len();
        let mut i: usize = 0;
        while i < names.len()
            invariant
                self.wf(),
                0 <= i <= names.len(),
                names@.map_values(|k: String| k@) == self.channels.key_order(),
                start <= 1,
                out@.len() == start + i,
                start == 1 <==> self.global is Some,
                start == 1 ==> out@[0] is None,
                forall|j: int| 0 <= j < i ==> out@[start + j] == Some(#[trigger] names@[j]),
            decreases names.len() - i,
        {
            out.push(Some(names[i].clone()));
            i = i + 1;
        }
        proof {
            self.channels.lemma_key_order();
            assert forall|k: Option<Seq<char>>| self.view().contains_key(k) implies exists|i: int|
                0 <= i < out@.len() && opt_view(#[trigger] out@[i]) == k by {
                match k {
                    None => {
                        assert(opt_view(out@[0]) == k);
                    },
                    Some(id) => {
                        assert(self.channels.key_order().contains(id));
                        let j = choose|j: int|
                            0 <= j < self.channels.key_order().len() && self.channels.key_order()[j] == id;
                        assert(self.channels.key_order()[j] == names@[j]@);
                        assert(opt_view(out@[start + j]) == k);
                    },
                }
            }
            assert forall|i: int| 0 <= i < out@.len() implies self.view().contains_key(
                opt_view(#[trigger] out@[i]),
            ) by {
                if i >= start {
                    let j = i - start;
                    assert(out@[start + j] == Some(names@[j]));
                    assert(self.channels.key_order()[j] == names@[j]@);
                    assert(self.channels.key_order().contains(names@[j]@));
                }
            }
        }
        out
    }
}

/// Why an outbound message could not be routed.
#[derive(Clone, Copy, Debug, PartialEq, Eq, Structural)]
pub enum SendError {
    NoActiveContext,
    AccountNotFound,
    ConnectionNotFound,
}

/// Several accounts, each with several connections, and the one selected context
/// that outbound messages go to. Each connection's events are filed by scope.
pub struct StateClient {
    accounts: StrMap<AccountClient>,
    selected: Option<SelectedContext>,
}

impl StateClient {
    /// The selected context, if one was set.
    pub closed spec fn selection(&self) -> Option<SelectedContext> {
        self.selected
    }

    /// The accounts as values, by account id.
    pub closed spec fn accounts(&self) -> Map<Seq<char>, AccountView> {
        self.accounts@.map_values(|a: AccountClient| account_view(a))
    }

    pub closed spec fn wf(&self) -> bool {
        &&& self.accounts.wf()
        &&& forall|k: Seq<char>| #[trigger] self.accounts@.contains_key(k) ==> self.accounts@[k].wf()
    }

    pub fn new() -> (r: Self)
        ensures
            r.wf(),
            r.accounts() == Map::<Seq<char>, AccountView>::empty(),
            r.selection() is None,
    {
        let r = StateClient { accounts: StrMap::new(), selected: None };
        assert(r.accounts() =~= Map::<Seq<char>, AccountView>::empty());
        r
    }

    fn put_account(&mut self, id: String, a: AccountClient)
        requires
            old(self).wf(),
            a.wf(),
        ensures
            final(self).wf(),
            final(self).selection() == old(self).selection(),
            final(self).accounts() == old(self).accounts().insert(id@, account_view(a)),
    {
        let ghost before = self.accounts@;
        self.accounts.insert(id, a);
        proof {
            lemma_map_values_insert(before, id@, a, |a: AccountClient| account_view(a));
        }
    }

    fn take_account(&mut self, id: &str) -> (r: Option<AccountClient>)
        requires
            old(self).wf(),
        ensures
            final(self).wf(),
            final(self).selection() == old(self).selection(),
            final(self).accounts() == old(self).accounts().remove(id@),
            match r {
                Some(a) => a.wf() && old(self).accounts().contains_key(id@) && account_view(a)
                    == old(self).accounts()[id@],
                None => !old(self).accounts().contains_key(id@),
            },
    {
        let ghost before = self.accounts@;
        let r = self.accounts.remove(id);
        proof {
            lemma_map_values_remove(before, id@, |a: AccountClient| account_view(a));
        }
        r
    }

    /// Adds an account with no connection, under a new random id.
    pub fn add_account(&mut self) -> (r: AccountId)
        requires
            old(self).wf(),
        ensures
            final(self).wf(),
            final(self).selection() == old(self).selection(),
            !old(self).accounts().contains_key(r@),
            final(self).accounts() == old(self).accounts().insert(
                r@,
                AccountView { connections: Map::empty(), selected_connection: None },
            ),
    {
        let id = self.accounts.unused_key();
        let a = AccountClient { connections: StrMap::new(), selected_connection: None };
        assert(account_view(a).connections =~= Map::<Seq<char>, Map<Option<Seq<char>>, ScopeView>>::empty());
        self.put_account(id.clone(), a);
        id
    }

    /// Drops an account, and returns the ids of its connections so that they can be
    /// closed.
    pub fn remove_account(&mut self, account: &str) -> (r: Vec<ConnectionId>)
        requires
            old(self).wf(),
        ensures
            final(self).wf(),
            final(self).selection() == old(self).selection(),
            final(self).accounts() == old(self).accounts().remove(account@),
            !old(self).accounts().contains_key(account@) ==> r@.len() == 0,
            r@.map_values(|k: String| k@).no_duplicates(),
            old(self).accounts().contains_key(account@) ==> r@.map_values(|k: String| k@).to_set()
                == old(self).accounts()[account@].connections.dom(),
    {
        match self.take_account(account) {
            Some(a) => {
                let r = a.connections.keys();
                proof {
                    a.connections.lemma_key_order();
                    assert(r@.map_values(|k: String| k@).to_set() =~= account_view(a).connections.dom());
                }
                r
            },
            None => Vec::new(),
        }
    }

    /// Registers a new connection of an account, under a new random id, and makes it
    /// the account's selected connection; `None` where the account is unknown.
    pub fn add_connection(&mut self, account: &str) -> (r: Option<ConnectionId>)
        requires
            old(self).wf(),
        ensures
            final(self).wf(),
            final(self).selection() == old(self).selection(),
            match r {
                Some(c) => old(self).accounts().contains_key(account@)
                    && !old(self).accounts()[account@].connections.contains_key(c@)
                    && final(self).accounts()
                    == old(self).accounts().insert(
                    account@,
                    AccountView {
                        connections: old(self).accounts()[account@].connections.insert(
                            c@,
                            Map::empty(),
                        ),
                        selected_connection: Some(c),
                    },
                ),
                None => !old(self).accounts().contains_key(account@) && final(self).accounts()
                    == old(self).accounts(),
            },
    {
        let ghost before = self.accounts();
        match self.take_account(account) {
            Some(a) => {
                let mut a = a;
                let cid = a.connections.unused_key();
                let ghost conns = a.connections@;
                let scopes = Scopes::new();
                a.connections.insert(cid.clone(), scopes);
                a.selected_connection = Some(cid.clone());
                proof {
                    lemma_map_values_insert(conns, cid@, scopes, |s: Scopes| scopes_of(s));
                }
                self.put_account(account.to_owned(), a);
                assert(before.remove(account@).insert(account@, account_view(a)) =~= before.insert(
                    account@,
                    account_view(a),
                ));
                Some(cid)
            },
            None => {
                assert(before.remove(account@) =~= before);
                None
            },
        }
    }

    /// Files an event that a connection published under its scope; unknown accounts
    /// and connections change nothing.
    pub fn record_event(&mut self, account: &str, connection: &str, event: ConnectionEvent)
        requires
            old(self).wf(),
        ensures
            final(self).wf(),
            final(self).selection() == old(self).selection(),
            (old(self).accounts().contains_key(account@) && old(self).accounts()[account@].connections.contains_key(connection@))
                ==> final(self).accounts() == old(self).accounts().insert(
                account@,
                AccountView {
                    connections: old(self).accounts()[account@].connections.insert(
                        connection@,
                        record_event_in(
                            old(self).accounts()[account@].connections[connection@],
                            event,
                        ),
                    ),
                    ..old(self).accounts()[account@]
                },
            ),
            !(old(self).accounts().contains_key(account@) && old(self).accounts()[account@].connections.contains_key(connection@))
                ==> final(self).accounts() == old(self).accounts(),
    {
        let ghost before = self.accounts();
        match self.take_account(account) {
            Some(a) => {
                let mut a = a;
                let ghost conns = a.connections@;
                match a.connections.remove(connection) {
                    Some(s) => {
                        let mut s = s;
                        assert(conns.contains_key(connection@));
                        s.record(event);
                        a.connections.insert(connection.to_owned(), s);
                        proof {
                            lemma_map_values_insert(conns.remove(connection@), connection@, s, |s: Scopes| scopes_of(s));
                            assert(conns.remove(connection@).insert(connection@, s) =~= conns.insert(connection@, s));
                            lemma_map_values_insert(conns, connection@, s, |s: Scopes| scopes_of(s));
                        }
                    },
                    None => {
                        assert(conns.remove(connection@) =~= conns);
                    },
                }
                self.put_account(account.to_owned(), a);
                assert(before.remove(account@).insert(account@, account_view(a)) =~= before.insert(
                    account@,
                    account_view(a),
                ));
                proof {
                    if !before[account@].connections.contains_key(connection@) {
                        assert(account_view(a) == before[account@]);
                        assert(before.insert(account@, before[account@]) =~= before);
                    }
                }
            },
            None => {
                assert(before.remove(account@) =~= before);
            },
        }
    }

    /// Sets the selected context.
    pub fn select(&mut self, ctx: SelectedContext)
        ensures
            final(self).selection() == Some(ctx),
            final(self).accounts() == old(self).accounts(),
            final(self).wf() == old(self).wf(),
    {
        self.selected = Some(ctx);
    }

    /// The account and connection that an outbound message goes to: the selected
    /// context, where it names a known account and one of its connections.
    pub fn route_send(&self) -> (r: Result<(AccountId, ConnectionId), SendError>)
        requires
            self.wf(),
        ensures
            match self.selection() {
                None => r == Err::<(AccountId, ConnectionId), SendError>(SendError::NoActiveContext),
                Some(sel) => if !self.accounts().contains_key(sel.account@) {
                    r == Err::<(AccountId, ConnectionId), SendError>(SendError::AccountNotFound)
                } else if !self.accounts()[sel.account@].connections.contains_key(sel.connection@) {
                    r == Err::<(AccountId, ConnectionId), SendError>(SendError::ConnectionNotFound)
                } else {
                    r == Ok::<(AccountId, ConnectionId), SendError>((sel.account, sel.connection))
                },
            },
    {
        let sel = match &self.selected {
            Some(sel) => sel,
            None => {
                return Err(SendError::NoActiveContext);
            },
        };
        let a = match self.accounts.get(sel.account.as_str()) {
            Some(a) => a,
            None => {
                return Err(SendError::AccountNotFound);
            },
        };
        if !a.connections.contains_key(sel.connection.as_str()) {
            return Err(SendError::ConnectionNotFound);
        }
        Ok((sel.account.clone(), sel.connection.clone()))
    }

    /// The events filed under the selected context's scope, if it names a known
    /// account, connection and scope.
    pub fn current_state(&self) -> (r: Option<&ChannelState>)
        requires
            self.wf(),
        ensures
            match r {
                Some(c) => self.selection() matches Some(sel) && self.accounts().contains_key(sel.account@)
                    && self.accounts()[sel.account@].connections.contains_key(sel.connection@)
                    && self.accounts()[sel.account@].connections[sel.connection@].contains_key(
                    opt_view(sel.channel_id),
                ) && c@ == self.accounts()[sel.account@].connections[sel.connection@][opt_view(
                    sel.channel_id,
                )],
                None => !(self.selection() matches Some(sel) && self.accounts().contains_key(sel.account@)
                    && self.accounts()[sel.account@].connections.contains_key(sel.connection@)
                    && self.accounts()[sel.account@].connections[sel.connection@].contains_key(
                    opt_view(sel.channel_id),
                )),
            },
    {
        let sel = match &self.selected {
            Some(sel) => sel,
            None => {
                return None;
            },
        };
        let a = match self.accounts.get(sel.account.as_str()) {
            Some(a) => a,
            None => {
                return None;
            },
        };
        match a.connections.get(sel.connection.as_str()) {
            Some(s) => s.get(&sel.channel_id),
            None => None,
        }
    }

    /// The ids of the accounts.
    pub fn list_accounts(&self) -> (r: Vec<AccountId>)
        requires
            self.wf(),
        ensures
            r@.map_values(|k: String| k@).no_duplicates(),
            r@.map_values(|k: String| k@).to_set() == self.accounts().dom(),
    {
        let r = self.accounts.keys();
        proof {
            self.accounts.lemma_key_order();
            assert(r@.map_values(|k: String| k@).to_set() =~= self.accounts().dom());
        }
        r
    }

    /// The ids of an account's connections; `None` where the account is unknown.
    pub fn list_connections(&self, account: &str) -> (r: Option<Vec<ConnectionId>>)
        requires
            self.wf(),
        ensures
            match r {
                Some(v) => self.accounts().contains_key(account@) && v@.map_values(|k: String| k@).no_duplicates()
                    && v@.map_values(|k: String| k@).to_set() == self.accounts()[account@].connections.dom(),
                None => !self.accounts().contains_key(account@),
            },
    {
        match self.accounts.get(account) {
            Some(a) => {
                let r = a.connections.keys();
                proof {
                    a.connections.lemma_key_order();
                    assert(r@.map_values(|k: String| k@).to_set() =~= account_view(*a).connections.dom());
                }
                Some(r)
            },
            None => None,
        }
    }

    /// The scopes that a connection of an account has filed events under; `None` where
    /// either is unknown.
    pub fn list_channels(&self, account: &str, connection: &str) -> (r: Option<Vec<Option<String>>>)
        requires
            self.wf(),
        ensures
            match r {
                Some(v) => self.accounts().contains_key(account@)
                    && self.accounts()[account@].connections.contains_key(connection@)
                    && forall|k: Option<Seq<char>>|
                    self.accounts()[account@].connections[connection@].contains_key(k) <==> exists|i: int|
                        0 <= i < v@.len() && opt_view(#[trigger] v@[i]) == k,
                None => !self.accounts().contains_key(account@)
                    || !self.accounts()[account@].connections.contains_key(connection@),
            },
    {
        match self.accounts.get(account) {
            Some(a) => match a.connections.get(connection) {
                Some(s) => Some(s.keys()),
                None => None,
            },
            None => None,
        }
    }
}

impl StateClient {
    /// Takes one delivery of a connection's stream: an event is filed, a lag is
    /// passed over (the lost events stay lost), and only the end of the stream stops
    /// the reading. Returns whether to keep reading.
    pub fn absorb(&mut self, account: &str, connection: &str, delivery: Delivery) -> (r: bool)
        requires
            old(self).wf(),
        ensures
            final(self).wf(),
            final(self).selection() == old(self).selection(),
            r == !(delivery is Closed),
            match delivery {
                Delivery::Event(e) => (old(self).accounts().contains_key(account@)
                    && old(self).accounts()[account@].connections.contains_key(connection@)) ==> final(self).accounts()
                    == old(self).accounts().insert(
                    account@,
                    AccountView {
                        connections: old(self).accounts()[account@].connections.insert(
                            connection@,
                            record_event_in(old(self).accounts()[account@].connections[connection@], e),
                        ),
                        ..old(self).accounts()[account@]
                    },
                ),
                _ => final(self).accounts() == old(self).accounts(),
            },
            (delivery is Event && !(old(self).accounts().contains_key(account@)
                && old(self).accounts()[account@].connections.contains_key(connection@)))
                ==> final(self).accounts() == old(self).accounts(),
    {
        match delivery {
            Delivery::Event(e) => {
                self.record_event(account, connection, e);
                true
            },
            Delivery::Lagged(_) => true,
            Delivery::Closed => false,
        }
    }
}

impl StateClient {
    /// Reads a whole stream of one connection's deliveries: the events before the end
    /// are filed one at a time, in order, lags are passed over (their events stay
    /// lost). Returns whether to keep reading, that is whether the stream did not end.
    pub fn absorb_all(&mut self, account: &str, connection: &str, deliveries: Vec<Delivery>) -> (r: bool)
        requires
            old(self).wf(),
        ensures
            final(self).wf(),
            final(self).selection() == old(self).selection(),
            r == !stream_closes(deliveries@),
            final(self).accounts() == with_events_filed(
                old(self).accounts(),
                account@,
                connection@,
                stream_events(deliveries@),
            ),
    {
        let ghost a0 = self.accounts();
        let ghost all = deliveries@;
        let ghost mut done: Seq<ConnectionEvent> = Seq::empty();
        let mut rest = deliveries;
        assert(Seq::<ConnectionEvent>::empty() + stream_events(all) =~= stream_events(all));
        proof {
            if a0.contains_key(account@) && a0[account@].connections.contains_key(connection@) {
                let av = a0[account@];
                assert(av.connections.insert(connection@, record_events_in(av.connections[connection@], done))
                    =~= av.connections);
                assert(a0.insert(
                    account@,
                    AccountView { connections: av.connections, ..av },
                ) =~= a0);
            }
        }
        while rest.len() > 0
            invariant
                self.wf(),
                a0 == old(self).accounts(),
                self.selection() == old(self).selection(),
                all == deliveries@,
                stream_events(all) == done + stream_events(rest@),
                stream_closes(all) == stream_closes(rest@),
                self.accounts() == with_events_filed(a0, account@, connection@, done),
            decreases rest@.len(),
        {
            let ghost before = rest@;
            let ghost cur = self.accounts();
            let d = rest.remove(0);
            assert(before.drop_first() =~= rest@);
            assert(before[0] == d);
            match d {
                Delivery::Event(e) => {
                    self.record_event(account, connection, e);
                    proof {
                        let next = done.push(e);
                        assert(next.drop_last() =~= done);
                        assert(done + stream_events(before) =~= next + stream_events(rest@));
                        if a0.contains_key(account@) && a0[account@].connections.contains_key(connection@) {
                            let av = a0[account@];
                            let target = with_events_filed(a0, account@, connection@, next);
                            assert(cur[account@].connections[connection@] == record_events_in(
                                av.connections[connection@],
                                done,
                            ));
                            assert(self.accounts()[account@].connections =~= target[account@].connections);
                            assert(self.accounts() =~= target);
                        }
                        done = next;
                    }
                },
                Delivery::Lagged(_) => {},
                Delivery::Closed => {
                    assert(stream_closes(before));
                    assert(stream_events(before) =~= Seq::<ConnectionEvent>::empty());
                    assert(stream_events(all) =~= done);
                    return false;
                },
            }
        }
        assert(done + stream_events(rest@) =~= done);
        true
    }
}

} // verus!
