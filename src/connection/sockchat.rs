use vstd::prelude::*;
use vstd::string::StringExecFns;
use kanii_lib::packets::types::Sockchatable;
use crate::connection::{ChatEvent, ConnectionEvent};
use crate::{Asset, AssetSource, AuthField, FieldValue, MessageFragment, Protocol};

verus! {

/// The text value of a credential field: a text field's value, or with `secret` a
/// password field's value.
pub open spec fn field_text(v: FieldValue, secret: bool) -> Option<String> {
    match v {
        FieldValue::Text(t) => if secret {
            None
        } else {
            t
        },
        FieldValue::Password(t) => if secret {
            t
        } else {
            None
        },
        FieldValue::Group(_) => None,
    }
}

/// The value of the last field named `name` that holds a value of the kind asked for.
pub open spec fn last_field(fields: Seq<AuthField>, name: Seq<char>, secret: bool) -> Option<String>
    decreases fields.len(),
{
    if fields.len() == 0 {
        None
    } else if fields.last().name@ == name && field_text(fields.last().value, secret) is Some {
        field_text(fields.last().value, secret)
    } else {
        last_field(fields.drop_last(), name, secret)
    }
}

/// The value of the last field named `name` that holds a value of the kind asked for.
fn find_field(fields: &Vec<AuthField>, name: &str, secret: bool) -> (r: Option<String>)
    ensures
        r == last_field(fields@, name@, secret),
{
    let owned = name.to_owned();
    let mut found: Option<String> = None;
    let mut i: usize = 0;
    while i < fields.len()
        invariant
            0 <= i <= fields.len(),
            owned@ == name@,
            found == last_field(fields@.subrange(0, i as int), name@, secret),
        decreases fields.len() - i,
    {
        let f = &fields[i];
        let value = match &f.value {
            FieldValue::Text(Some(v)) => if secret {
                None
            } else {
                Some(v.clone())
            },
            FieldValue::Password(Some(v)) => if secret {
                Some(v.clone())
            } else {
                None
            },
            _ => None,
        };
        proof {
            let next = fields@.subrange(0, i + 1);
            assert(next.drop_last() =~= fields@.subrange(0, i as int));
            assert(next.last() == fields@[i as int]);
        }
        if f.name == owned && value.is_some() {
            found = value;
        }
        i = i + 1;
    }
    assert(fields@.subrange(0, fields.len() as int) =~= fields@);
    found
}

/// What `url::Url::parse` followed by its text form gives for a text; `None` where
/// it is no URL.
pub uninterp spec fn url_parsed(s: Seq<char>) -> Option<Seq<char>>;

/// Relies on url::Url::parse and the URL's text form: the normalised URL, or `None`
/// where the text does not parse.
#[verifier::external_body]
fn parse_url(s: &str) -> (r: Option<String>)
    ensures
        match r {
            Some(u) => url_parsed(s@) == Some(u@),
            None => url_parsed(s@) is None,
        },
{
    match url::Url::parse(s) {
        Ok(u) => Some(u.to_string()),
        Err(_) => None,
    }
}

/// A credential that is missing or unusable.
#[derive(Clone, Copy, Debug, PartialEq, Eq, Structural)]
pub enum CredentialError {
    MissingUrl,
    MissingToken,
    MissingUid,
    InvalidUrl,
}

impl CredentialError {
    /// The message for the error.
    pub fn message(&self) -> (r: String)
        ensures
            *self == CredentialError::MissingUrl ==> r@ == "Missing URL field"@,
            *self == CredentialError::MissingToken ==> r@ == "Missing Token field"@,
            *self == CredentialError::MissingUid ==> r@ == "Missing UID field"@,
            *self == CredentialError::InvalidUrl ==> r@ == "Invalid URL"@,
    {
        match self {
            CredentialError::MissingUrl => "Missing URL field".to_owned(),
            CredentialError::MissingToken => "Missing Token field".to_owned(),
            CredentialError::MissingUid => "Missing UID field".to_owned(),
            CredentialError::InvalidUrl => "Invalid URL".to_owned(),
        }
    }
}

/// What a session needs from the credentials.
#[derive(Debug)]
pub struct SessionConfig {
    pub url: String,
    pub token: String,
    pub uid: String,
    pub pfp_url: Option<String>,
    pub asset_api: Option<String>,
}

/// Reads and checks the credentials before any network use: the server URL, the
/// token and the user id are required, the URL must parse; the picture template and
/// the asset catalog address are optional.
pub fn read_credentials(auth: &Vec<AuthField>) -> (r: Result<SessionConfig, CredentialError>)
    ensures
        ({
            let url = last_field(auth@, "sockchat_url"@, false);
            let token = last_field(auth@, "token"@, true);
            let uid = last_field(auth@, "uid"@, false);
            if url is None {
                r matches Err(e) && e == CredentialError::MissingUrl
            } else if token is None {
                r matches Err(e) && e == CredentialError::MissingToken
            } else if uid is None {
                r matches Err(e) && e == CredentialError::MissingUid
            } else if url_parsed(url.unwrap()@) is None {
                r matches Err(e) && e == CredentialError::InvalidUrl
            } else {
                r matches Ok(c) && Some(c.url@) == url_parsed(url.unwrap()@) && c.token
                    == token.unwrap() && c.uid == uid.unwrap() && c.pfp_url == last_field(
                    auth@,
                    "pfp_url"@,
                    false,
                ) && c.asset_api == last_field(auth@, "asset_api"@, false)
            }
        }),
{
    let url = match find_field(auth, "sockchat_url", false) {
        Some(u) => u,
        None => {
            return Err(CredentialError::MissingUrl);
        },
    };
    let token = match find_field(auth, "token", true) {
        Some(t) => t,
        None => {
            return Err(CredentialError::MissingToken);
        },
    };
    let uid = match find_field(auth, "uid", false) {
        Some(u) => u,
        None => {
            return Err(CredentialError::MissingUid);
        },
    };
    let parsed = match parse_url(url.as_str()) {
        Some(p) => p,
        None => {
            return Err(CredentialError::InvalidUrl);
        },
    };
    let pfp_url = find_field(auth, "pfp_url", false);
    let asset_api = find_field(auth, "asset_api", false);
    Ok(SessionConfig { url: parsed, token, uid, pfp_url, asset_api })
}

/// Whether a field asks for the credential `name` of the given kind, empty.
pub open spec fn asks_for(f: AuthField, name: Seq<char>, secret: bool, required: bool) -> bool {
    &&& f.name@ == name
    &&& f.required == required
    &&& if secret {
        f.value == FieldValue::Password(None)
    } else {
        f.value == FieldValue::Text(None)
    }
}

fn prompt(name: &str, display: &str, secret: bool, required: bool) -> (r: AuthField)
    ensures
        asks_for(r, name@, secret, required),
        r.display matches Some(d) && d@ == display@,
{
    AuthField {
        name: name.to_owned(),
        display: Some(display.to_owned()),
        value: if secret {
            FieldValue::Password(None)
        } else {
            FieldValue::Text(None)
        },
        required,
    }
}

/// The protocol's name and the credentials it asks for.
pub fn protocol_spec() -> (r: Protocol)
    ensures
        r.name@ == "sockchat"@,
        r.auth matches Some(fields) && fields@.len() == 5 && asks_for(
            fields@[0],
            "sockchat_url"@,
            false,
            true,
        ) && asks_for(fields@[1], "token"@, true, true) && asks_for(fields@[2], "uid"@, false, true)
            && asks_for(fields@[3], "pfp_url"@, false, false) && asks_for(
            fields@[4],
            "asset_api"@,
            false,
            false,
        ),
{
    let mut fields: Vec<AuthField> = Vec::new();
    fields.push(prompt("sockchat_url", "Sockchat URL", false, true));
    fields.push(prompt("token", "User token", true, true));
    fields.push(prompt("uid", "UID", false, true));
    fields.push(prompt("pfp_url", "Profile picture URL using {uid} to specify the user", false, false));
    fields.push(prompt("asset_api", "URL of the Mami-compatible asset API", false, false));
    Protocol { name: "sockchat".to_owned(), auth: Some(fields) }
}

/// An outbound event that this protocol cannot relay.
#[derive(Clone, Copy, Debug, PartialEq, Eq, Structural)]
pub enum OutboundError {
    UnsupportedFormat,
}

/// What sending an event asks of the transport: the text of a new chat message whose
/// first fragment is text. Any other event, and a chat message that does not start
/// with text, cannot be relayed.
pub open spec fn outbound_of(e: ConnectionEvent) -> Result<String, OutboundError> {
    match e {
        ConnectionEvent::Chat { event: ChatEvent::New { message, .. } } => {
            if message.content@.len() > 0 && message.content@[0] is Text {
                Ok(message.content@[0]->Text_0)
            } else {
                Err(OutboundError::UnsupportedFormat)
            }
        },
        _ => Err(OutboundError::UnsupportedFormat),
    }
}

/// The text to send for an outbound event.
pub fn outbound_text(event: &ConnectionEvent) -> (r: Result<String, OutboundError>)
    ensures
        r == outbound_of(*event),
{
    match event {
        ConnectionEvent::Chat { event: ChatEvent::New { message, .. } } => {
            if message.content.len() > 0 {
                match &message.content[0] {
                    MessageFragment::Text(t) => Ok(t.clone()),
                    _ => Err(OutboundError::UnsupportedFormat),
                }
            } else {
                Err(OutboundError::UnsupportedFormat)
            }
        },
        _ => Err(OutboundError::UnsupportedFormat),
    }
}

/// Relies on kanii_lib's client message packet and `to_sockstr`: the packet id `2`,
/// the user id and the text, joined by tabs.
#[verifier::external_body]
fn message_packet(user_id: &str, text: &str) -> (r: String)
    ensures
        r@ == "2"@ + seq!['\t'] + user_id@ + seq!['\t'] + text@,
{
    kanii_lib::packets::client::ClientPacket::Message(
        kanii_lib::packets::client::message::MessagePacket {
            user_id: user_id.to_string(),
            message: text.to_string(),
        },
    ).to_sockstr()
}

/// Relies on kanii_lib's client authentication packet and `to_sockstr`: the packet id
/// `1`, the method and the key, joined by tabs.
#[verifier::external_body]
fn authentication_packet(method: &str, authkey: &str) -> (r: String)
    ensures
        r@ == "1"@ + seq!['\t'] + method@ + seq!['\t'] + authkey@,
{
    kanii_lib::packets::client::ClientPacket::Authentication(
        kanii_lib::packets::client::authentication::AuthenticationPacket {
            method: method.to_string(),
            authkey: authkey.to_string(),
        },
    ).to_sockstr()
}

/// The wire frame that carries a chat text from user `user_id`.
pub fn chat_frame(user_id: &str, text: &str) -> (r: String)
    ensures
        r@ == "2"@ + seq!['\t'] + user_id@ + seq!['\t'] + text@,
{
    message_packet(user_id, text)
}

/// The wire frame that asks to authenticate with a session token.
pub fn auth_frame(token: &str) -> (r: String)
    ensures
        r@ == "1"@ + seq!['\t'] + "Misuzu"@ + seq!['\t'] + token@,
{
    authentication_packet("Misuzu", token)
}

/// What `regex::escape` gives for a text.
pub uninterp spec fn regex_escaped(s: Seq<char>) -> Seq<char>;

/// Relies on regex::escape: the text with every regex metacharacter escaped.
#[verifier::external_body]
fn escape(s: &str) -> (r: String)
    ensures
        r@ == regex_escaped(s@),
{
    regex::escape(s)
}

/// The escaped aliases joined by `|`.
pub open spec fn alternation(keys: Seq<String>) -> Seq<char>
    decreases keys.len(),
{
    if keys.len() == 0 {
        Seq::empty()
    } else if keys.len() == 1 {
        regex_escaped(keys[0]@)
    } else {
        alternation(keys.drop_last()) + "|"@ + regex_escaped(keys.last()@)
    }
}

/// The pattern that recognises any of the aliases written between colons.
pub open spec fn emote_pattern(keys: Seq<String>) -> Seq<char> {
    ":(?:"@ + alternation(keys) + "):"@
}

/// The emote that a catalog entry stands for: the first alias is its id, and its
/// pattern recognises `:alias:` for every alias. An entry without aliases gives none.
pub fn catalog_emote(uri: String, aliases: &Vec<String>) -> (r: Option<Asset>)
    ensures
        aliases@.len() == 0 ==> r is None,
        aliases@.len() > 0 ==> (r matches Some(Asset::Emote { id, pattern, src, source })
            && id == Some(aliases@[0]) && pattern@ == emote_pattern(aliases@) && src == uri
            && source == AssetSource::Server),
{
    if aliases.len() == 0 {
        return None;
    }
    let mut joined = escape(aliases[0].as_str());
    let mut i: usize = 1;
    assert(aliases@.subrange(0, 1).len() == 1);
    while i < aliases.len()
        invariant
            1 <= i <= aliases@.len(),
            joined@ == alternation(aliases@.subrange(0, i as int)),
        decreases aliases.len() - i,
    {
        let e = escape(aliases[i].as_str());
        joined.append("|");
        joined.append(e.as_str());
        proof {
            let next = aliases@.subrange(0, i + 1);
            assert(next.drop_last() =~= aliases@.subrange(0, i as int));
            assert(next.last() == aliases@[i as int]);
        }
        i = i + 1;
    }
    assert(aliases@.subrange(0, aliases@.len() as int) =~= aliases@);
    let pattern = ":(?:".to_owned().concat(joined.as_str()).concat("):");
    Some(Asset::Emote { id: Some(aliases[0].clone()), pattern, src: uri, source: AssetSource::Server })
}

/// Relies on str::strip_suffix with a char pattern: the text without its last
/// character where that is `/`.
#[verifier::external_body]
fn without_trailing_slash(s: &str) -> (r: Option<&str>)
    ensures
        match r {
            Some(p) => s@ == p@.push('/'),
            None => !(s@.len() > 0 && s@.last() == '/'),
        },
{
    s.strip_suffix('/')
}

/// The catalog address: the base without one trailing `/`, then `/emotes`.
pub open spec fn catalog_url_of(api: Seq<char>) -> Seq<char> {
    if api.len() > 0 && api.last() == '/' {
        api.drop_last() + "/emotes"@
    } else {
        api + "/emotes"@
    }
}

/// The address that lists a catalog's emotes.
pub fn catalog_url(api: &str) -> (r: String)
    ensures
        r@ == catalog_url_of(api@),
{
    match without_trailing_slash(api) {
        Some(p) => {
            assert(p@ == api@.drop_last());
            p.to_owned().concat("/emotes")
        },
        None => api.to_owned().concat("/emotes"),
    }
}

/// Relies on kanii_lib's client ping packet and `to_sockstr`: the packet id `0` and
/// the user id, joined by a tab.
#[verifier::external_body]
fn ping_packet(user_id: &str) -> (r: String)
    ensures
        r@ == "0"@ + seq!['\t'] + user_id@,
{
    kanii_lib::packets::client::ClientPacket::Ping(
        kanii_lib::packets::client::ping::PingPacket { user_id: user_id.to_string() },
    ).to_sockstr()
}

/// The keepalive frame of user `user_id`.
pub fn ping_frame(user_id: &str) -> (r: String)
    ensures
        r@ == "0"@ + seq!['\t'] + user_id@,
{
    ping_packet(user_id)
}

} // verus!
