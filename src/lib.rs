use vstd::prelude::*;

pub mod client;
pub mod connection;
mod ids;
pub mod utils;
pub mod multiplexer;
pub mod strmap;

verus! {

/// A stored set of credentials for one protocol, with the profile it belongs to.
#[derive(Debug)]
pub struct Account {
    pub auth: Vec<AuthField>,
    pub protocol_name: String,
    pub private_profile: Option<Profile>,
}

#[derive(Debug)]
pub struct Profile {
    pub id: Option<String>,
    pub username: Option<String>,
    pub display_name: Option<String>,
    pub color: Option<[u8; 4]>,
    pub picture: Option<String>,
}

impl Clone for Profile {
    fn clone(&self) -> (r: Self)
        ensures
            r == *self,
    {
        Profile {
            id: self.id.clone(),
            username: self.username.clone(),
            display_name: self.display_name.clone(),
            color: self.color,
            picture: self.picture.clone(),
        }
    }
}

impl Default for Profile {
    fn default() -> (r: Self)
        ensures
            r.id is None && r.username is None && r.display_name is None,
            r.color is None && r.picture is None,
    {
        Profile { id: None, username: None, display_name: None, color: None, picture: None }
    }
}

/// A chat message. `timestamp` counts nanoseconds since the Unix epoch.
#[derive(Debug)]
pub struct Message {
    pub id: Option<String>,
    pub sender_id: Option<String>,
    pub content: Vec<MessageFragment>,
    pub timestamp: i64,
    pub message_type: MessageType,
    pub status: MessageStatus,
}

/// A message as values: the fragments as a sequence.
pub struct MessageView {
    pub id: Option<String>,
    pub sender_id: Option<String>,
    pub content: Seq<MessageFragment>,
    pub timestamp: i64,
    pub message_type: MessageType,
    pub status: MessageStatus,
}

impl View for Message {
    type V = MessageView;

    open spec fn view(&self) -> MessageView {
        MessageView {
            id: self.id,
            sender_id: self.sender_id,
            content: self.content@,
            timestamp: self.timestamp,
            message_type: self.message_type,
            status: self.status,
        }
    }
}

impl Clone for Message {
    fn clone(&self) -> (r: Self)
        ensures
            r@ == self@,
    {
        let content = self.content.clone();
        assert(content@ =~= self.content@);
        Message {
            id: self.id.clone(),
            sender_id: self.sender_id.clone(),
            content,
            timestamp: self.timestamp,
            message_type: self.message_type,
            status: self.status,
        }
    }
}

#[derive(Clone, Copy, Debug, PartialEq, Eq, Structural)]
pub enum MessageStatus {
    Sent,
    Delivered,
    Edited,
    Deleted,
    Failed,
}

#[derive(Clone, Copy, Debug, PartialEq, Eq, Structural)]
pub enum MessageType {
    CurrentUser,
    Normal,
    Server,
    Meta,
}

#[derive(Debug)]
pub enum MessageFragment {
    Text(String),
    Image { url: String, mime: String },
    Video { url: String, mime: String },
    Audio { url: String, mime: String },
    Url(String),
    AssetId(String),
}

impl Clone for MessageFragment {
    fn clone(&self) -> (r: Self)
        ensures
            r == *self,
    {
        match self {
            MessageFragment::Text(t) => MessageFragment::Text(t.clone()),
            MessageFragment::Image { url, mime } => MessageFragment::Image {
                url: url.clone(),
                mime: mime.clone(),
            },
            MessageFragment::Video { url, mime } => MessageFragment::Video {
                url: url.clone(),
                mime: mime.clone(),
            },
            MessageFragment::Audio { url, mime } => MessageFragment::Audio {
                url: url.clone(),
                mime: mime.clone(),
            },
            MessageFragment::Url(u) => MessageFragment::Url(u.clone()),
            MessageFragment::AssetId(a) => MessageFragment::AssetId(a.clone()),
        }
    }
}

impl PartialEq for MessageFragment {
    fn eq(&self, other: &MessageFragment) -> (r: bool) {
        match (self, other) {
            (MessageFragment::Text(a), MessageFragment::Text(b)) => *a == *b,
            (
                MessageFragment::Image { url: a, mime: m },
                MessageFragment::Image { url: b, mime: n },
            ) => *a == *b && *m == *n,
            (
                MessageFragment::Video { url: a, mime: m },
                MessageFragment::Video { url: b, mime: n },
            ) => *a == *b && *m == *n,
            (
                MessageFragment::Audio { url: a, mime: m },
                MessageFragment::Audio { url: b, mime: n },
            ) => *a == *b && *m == *n,
            (MessageFragment::Url(a), MessageFragment::Url(b)) => *a == *b,
            (MessageFragment::AssetId(a), MessageFragment::AssetId(b)) => *a == *b,
            _ => false,
        }
    }
}

impl vstd::std_specs::cmp::PartialEqSpecImpl for MessageFragment {
    open spec fn obeys_eq_spec() -> bool {
        true
    }

    open spec fn eq_spec(&self, other: &MessageFragment) -> bool {
        fragment_view(*self) == fragment_view(*other)
    }
}

/// A fragment as plain text values: the variant's position and its two strings.
pub open spec fn fragment_view(f: MessageFragment) -> (int, Seq<char>, Seq<char>) {
    match f {
        MessageFragment::Text(t) => (0, t@, Seq::empty()),
        MessageFragment::Image { url, mime } => (1, url@, mime@),
        MessageFragment::Video { url, mime } => (2, url@, mime@),
        MessageFragment::Audio { url, mime } => (3, url@, mime@),
        MessageFragment::Url(u) => (4, u@, Seq::empty()),
        MessageFragment::AssetId(a) => (5, a@, Seq::empty()),
    }
}

#[derive(Debug)]
pub enum Asset {
    Emote { id: Option<String>, pattern: String, src: String, source: AssetSource },
    Sticker { id: Option<String>, pattern: String, src: String, source: AssetSource },
    Audio { id: Option<String>, pattern: String, src: String, source: AssetSource },
    Command { id: Option<String>, pattern: String, args: Vec<MessageFragment>, source: AssetSource },
}

/// An asset as values: a command's arguments as a sequence.
pub enum AssetView {
    Emote { id: Option<String>, pattern: String, src: String, source: AssetSource },
    Sticker { id: Option<String>, pattern: String, src: String, source: AssetSource },
    Audio { id: Option<String>, pattern: String, src: String, source: AssetSource },
    Command { id: Option<String>, pattern: String, args: Seq<MessageFragment>, source: AssetSource },
}

impl View for Asset {
    type V = AssetView;

    open spec fn view(&self) -> AssetView {
        match self {
            Asset::Emote { id, pattern, src, source } => AssetView::Emote {
                id: *id,
                pattern: *pattern,
                src: *src,
                source: *source,
            },
            Asset::Sticker { id, pattern, src, source } => AssetView::Sticker {
                id: *id,
                pattern: *pattern,
                src: *src,
                source: *source,
            },
            Asset::Audio { id, pattern, src, source } => AssetView::Audio {
                id: *id,
                pattern: *pattern,
                src: *src,
                source: *source,
            },
            Asset::Command { id, pattern, args, source } => AssetView::Command {
                id: *id,
                pattern: *pattern,
                args: args@,
                source: *source,
            },
        }
    }
}

impl Clone for Asset {
    fn clone(&self) -> (r: Self)
        ensures
            r@ == self@,
    {
        match self {
            Asset::Emote { id, pattern, src, source } => Asset::Emote {
                id: id.clone(),
                pattern: pattern.clone(),
                src: src.clone(),
                source: *source,
            },
            Asset::Sticker { id, pattern, src, source } => Asset::Sticker {
                id: id.clone(),
                pattern: pattern.clone(),
                src: src.clone(),
                source: *source,
            },
            Asset::Audio { id, pattern, src, source } => Asset::Audio {
                id: id.clone(),
                pattern: pattern.clone(),
                src: src.clone(),
                source: *source,
            },
            Asset::Command { id, pattern, args, source } => {
                let a = args.clone();
                assert(a@ =~= args@);
                Asset::Command { id: id.clone(), pattern: pattern.clone(), args: a, source: *source }
            },
        }
    }
}

impl Asset {
    pub open spec fn spec_id(&self) -> Option<String> {
        match self {
            Asset::Emote { id, .. } => *id,
            Asset::Sticker { id, .. } => *id,
            Asset::Audio { id, .. } => *id,
            Asset::Command { id, .. } => *id,
        }
    }

    pub open spec fn spec_pattern(&self) -> String {
        match self {
            Asset::Emote { pattern, .. } => *pattern,
            Asset::Sticker { pattern, .. } => *pattern,
            Asset::Audio { pattern, .. } => *pattern,
            Asset::Command { pattern, .. } => *pattern,
        }
    }
}

#[derive(Clone, Copy, Debug, PartialEq, Eq, Structural)]
pub enum AssetSource {
    User,
    Meta,
    Server,
}

#[derive(Debug)]
pub struct Channel {
    pub id: String,
    pub name: Option<String>,
    pub channel_type: ChannelType,
}

impl Clone for Channel {
    fn clone(&self) -> (r: Self)
        ensures
            r == *self,
    {
        Channel { id: self.id.clone(), name: self.name.clone(), channel_type: self.channel_type }
    }
}

#[derive(Clone, Copy, Debug, PartialEq, Eq, Structural)]
pub enum ChannelType {
    Group,
    Direct,
    Broadcast,
}

/// What a protocol is called and which credentials it asks for.
#[derive(Debug)]
pub struct Protocol {
    pub name: String,
    pub auth: Option<Vec<AuthField>>,
}

#[derive(Debug)]
pub struct AuthField {
    pub name: String,
    pub display: Option<String>,
    pub value: FieldValue,
    pub required: bool,
}

#[derive(Debug)]
pub enum FieldValue {
    Text(Option<String>),
    Password(Option<String>),
    Group(Vec<AuthField>),
}

} // verus!
