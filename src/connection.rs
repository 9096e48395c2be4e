use vstd::prelude::*;
pub mod reader;
pub mod sockchat;
use crate::{Asset, Channel, Message, Profile};

verus! {

#[derive(Clone, Debug)]
pub enum ChatEvent {
    New { channel_id: Option<String>, message: Message },
    Update { channel_id: Option<String>, message_id: String, new_message: Message },
    Remove { channel_id: Option<String>, message_id: String },
}

#[derive(Clone, Debug)]
pub enum ChannelEvent {
    New { channel: Channel },
    Update { channel_id: String, new_channel: Channel },
    Remove { channel_id: String },
    Join { channel_id: String },
    Leave { channel_id: String },
    Switch { channel_id: String },
    Kick { channel_id: Option<String>, reason: Option<String>, ban: bool },
    Wipe { channel_id: Option<String> },
    ClearList,
}

#[derive(Clone, Debug)]
pub enum UserEvent {
    New { channel_id: Option<String>, user: Profile },
    Update { channel_id: Option<String>, user_id: String, new_user: Profile },
    Remove { channel_id: Option<String>, user_id: String },
    ClearList { channel_id: Option<String> },
    /// Names the user that the local session acts as.
    Identify { user_id: String },
}

#[derive(Clone, Debug)]
pub enum StatusEvent {
    Ping { artifact: Option<String> },
    Connected { artifact: Option<String> },
    Disconnected { artifact: Option<String> },
}

#[derive(Clone, Debug)]
pub enum AssetEvent {
    New { channel_id: Option<String>, asset: Asset },
    Update { channel_id: Option<String>, asset_id: String, new_asset: Asset },
    Remove { channel_id: Option<String>, asset_id: String },
    ClearList { channel_id: Option<String> },
}

#[derive(Clone, Debug)]
pub enum ConnectionEvent {
    Chat { event: ChatEvent },
    User { event: UserEvent },
    Channel { event: ChannelEvent },
    Status { event: StatusEvent },
    Asset { event: AssetEvent },
}

impl ChatEvent {
    pub open spec fn scope(&self) -> Option<String> {
        match self {
            ChatEvent::New { channel_id, .. } => *channel_id,
            ChatEvent::Update { channel_id, .. } => *channel_id,
            ChatEvent::Remove { channel_id, .. } => *channel_id,
        }
    }

    /// The channel that the event applies to; `None` is the connection's global scope.
    pub fn channel_id(&self) -> (r: &Option<String>)
        ensures
            *r == self.scope(),
    {
        match self {
            ChatEvent::New { channel_id, .. } => channel_id,
            ChatEvent::Update { channel_id, .. } => channel_id,
            ChatEvent::Remove { channel_id, .. } => channel_id,
        }
    }
}

impl UserEvent {
    /// The channel scope of a scoped event; `Identify` has none.
    pub open spec fn scope(&self) -> Option<String> {
        match self {
            UserEvent::New { channel_id, .. } => *channel_id,
            UserEvent::Update { channel_id, .. } => *channel_id,
            UserEvent::Remove { channel_id, .. } => *channel_id,
            UserEvent::ClearList { channel_id } => *channel_id,
            UserEvent::Identify { .. } => None,
        }
    }

    /// The channel that the event applies to; `None` is the connection's global scope.
    pub fn channel_id(&self) -> (r: &Option<String>)
        ensures
            *r == self.scope(),
    {
        match self {
            UserEvent::New { channel_id, .. } => channel_id,
            UserEvent::Update { channel_id, .. } => channel_id,
            UserEvent::Remove { channel_id, .. } => channel_id,
            UserEvent::ClearList { channel_id } => channel_id,
            UserEvent::Identify { .. } => &None,
        }
    }
}

impl AssetEvent {
    pub open spec fn scope(&self) -> Option<String> {
        match self {
            AssetEvent::New { channel_id, .. } => *channel_id,
            AssetEvent::Update { channel_id, .. } => *channel_id,
            AssetEvent::Remove { channel_id, .. } => *channel_id,
            AssetEvent::ClearList { channel_id } => *channel_id,
        }
    }

    /// The channel that the event applies to; `None` is the connection's global scope.
    pub fn channel_id(&self) -> (r: &Option<String>)
        ensures
            *r == self.scope(),
    {
        match self {
            AssetEvent::New { channel_id, .. } => channel_id,
            AssetEvent::Update { channel_id, .. } => channel_id,
            AssetEvent::Remove { channel_id, .. } => channel_id,
            AssetEvent::ClearList { channel_id } => channel_id,
        }
    }
}

/// The single consumer of a connection's events: only the first subscription is
/// granted.
#[derive(Debug)]
pub struct Subscription {
    taken: bool,
}

/// A second subscription to the same connection.
#[derive(Clone, Copy, Debug, PartialEq, Eq, Structural)]
pub enum SubscribeError {
    AlreadySubscribed,
}

impl Subscription {
    pub closed spec fn is_taken(&self) -> bool {
        self.taken
    }

    pub fn new() -> (r: Self)
        ensures
            !r.is_taken(),
    {
        Subscription { taken: false }
    }

    /// Grants the subscription the first time and refuses it afterwards.
    pub fn take(&mut self) -> (r: Result<(), SubscribeError>)
        ensures
            final(self).is_taken(),
            r is Ok <==> !old(self).is_taken(),
            r is Err ==> r == Err::<(), SubscribeError>(SubscribeError::AlreadySubscribed),
    {
        if self.taken {
            Err(SubscribeError::AlreadySubscribed)
        } else {
            self.taken = true;
            Ok(())
        }
    }
}

/// What a reader of a published event stream gets from one receive.
#[derive(Debug)]
pub enum Delivery {
    Event(ConnectionEvent),
    /// The reader fell behind and this many events were lost.
    Lagged(u64),
    /// The stream is over.
    Closed,
}

/// The events that a reader takes from a stream: those before the end, in order, with
/// lags passed over.
pub open spec fn stream_events(ds: Seq<Delivery>) -> Seq<ConnectionEvent>
    decreases ds.len(),
{
    if ds.len() == 0 {
        Seq::empty()
    } else {
        match ds[0] {
            Delivery::Event(e) => seq![e] + stream_events(ds.drop_first()),
            Delivery::Lagged(_) => stream_events(ds.drop_first()),
            Delivery::Closed => Seq::empty(),
        }
    }
}

/// Whether a stream ends.
pub open spec fn stream_closes(ds: Seq<Delivery>) -> bool
    decreases ds.len(),
{
    ds.len() > 0 && (ds[0] is Closed || stream_closes(ds.drop_first()))
}

/// A stream that delivers every event, with no lag and no end, hands the reader
/// exactly those events in order.
pub proof fn lemma_lossless_stream(es: Seq<ConnectionEvent>)
    ensures
        stream_events(es.map_values(|e: ConnectionEvent| Delivery::Event(e))) == es,
        !stream_closes(es.map_values(|e: ConnectionEvent| Delivery::Event(e))),
    decreases es.len(),
{
    let ds = es.map_values(|e: ConnectionEvent| Delivery::Event(e));
    if es.len() > 0 {
        lemma_lossless_stream(es.drop_first());
        assert(ds.drop_first() =~= es.drop_first().map_values(|e: ConnectionEvent| Delivery::Event(e)));
        assert(ds[0] == Delivery::Event(es[0]));
        assert(seq![es[0]] + es.drop_first() =~= es);
    }
}

/// Passing over a lag loses the events it stands for and nothing else: the reader
/// takes the same events from a stream with a lag inserted anywhere.
pub proof fn lemma_lag_is_a_gap(a: Seq<Delivery>, b: Seq<Delivery>, n: u64)
    requires
        !stream_closes(a),
    ensures
        stream_events(a + seq![Delivery::Lagged(n)] + b) == stream_events(a) + stream_events(b),
        stream_closes(a + seq![Delivery::Lagged(n)] + b) == stream_closes(b),
    decreases a.len(),
{
    let whole = a + seq![Delivery::Lagged(n)] + b;
    if a.len() == 0 {
        assert(whole.drop_first() =~= b);
        assert(stream_events(a) =~= Seq::<ConnectionEvent>::empty());
        assert(Seq::<ConnectionEvent>::empty() + stream_events(b) =~= stream_events(b));
    } else {
        assert(whole.drop_first() =~= a.drop_first() + seq![Delivery::Lagged(n)] + b);
        assert(whole[0] == a[0]);
        lemma_lag_is_a_gap(a.drop_first(), b, n);
        match a[0] {
            Delivery::Event(e) => {
                assert(seq![e] + (stream_events(a.drop_first()) + stream_events(b)) =~= (seq![e]
                    + stream_events(a.drop_first())) + stream_events(b));
            },
            _ => {},
        }
    }
}

} // verus!
