use vstd::prelude::*;
use vstd::string::StringExecFns;
use crate::MessageFragment;
use crate::utils::assets::{frag_views, text_view};

verus! {

/// What `str::to_lowercase` returns for a text.
pub uninterp spec fn lower_of(s: Seq<char>) -> Seq<char>;

/// Relies on str::to_lowercase: the result depends on the characters alone.
#[verifier::external_body]
fn lowercase(s: &str) -> (r: String)
    ensures
        r@ == lower_of(s@),
{
    s.to_lowercase()
}

/// Relies on str::starts_with with a text pattern: whether `prefix` begins `s`.
#[verifier::external_body]
fn begins_with(s: &str, prefix: &str) -> (r: bool)
    ensures
        r == (prefix@.len() <= s@.len() && s@.subrange(0, prefix@.len() as int) == prefix@),
{
    s.starts_with(prefix)
}

/// Relies on str::rsplit_once with a char pattern: the text before and after the
/// last `.`, or `None` where there is no `.`.
#[verifier::external_body]
fn split_at_last_dot(s: &str) -> (r: Option<(&str, &str)>)
    ensures
        match r {
            Some((a, b)) => s@ == a@ + seq!['.'] + b@ && !b@.contains('.'),
            None => !s@.contains('.'),
        },
{
    s.rsplit_once('.')
}

/// The text after the last `.`; all of it where there is none.
pub open spec fn extension_of(s: Seq<char>) -> Seq<char>
    decreases s.len(),
{
    if s.len() == 0 {
        s
    } else if s.last() == '.' {
        Seq::empty()
    } else {
        extension_of(s.drop_last()).push(s.last())
    }
}

proof fn lemma_extension_after_dot(a: Seq<char>, b: Seq<char>)
    requires
        !b.contains('.'),
    ensures
        extension_of(a + seq!['.'] + b) == b,
    decreases b.len(),
{
    let s = a + seq!['.'] + b;
    if b.len() == 0 {
        assert(s.last() == '.');
    } else {
        assert(s.drop_last() =~= a + seq!['.'] + b.drop_last());
        assert(s.last() == b.last());
        assert(b.last() != '.') by {
            assert(b[b.len() - 1] == b.last());
        }
        assert(!b.drop_last().contains('.')) by {
            if b.drop_last().contains('.') {
                let i = choose|i: int| 0 <= i < b.drop_last().len() && b.drop_last()[i] == '.';
                assert(b[i] == '.');
            }
        }
        lemma_extension_after_dot(a, b.drop_last());
        assert(b.drop_last().push(b.last()) =~= b);
    }
}

proof fn lemma_extension_without_dot(s: Seq<char>)
    requires
        !s.contains('.'),
    ensures
        extension_of(s) == s,
    decreases s.len(),
{
    if s.len() > 0 {
        assert(s.last() != '.') by {
            assert(s[s.len() - 1] == s.last());
        }
        assert(!s.drop_last().contains('.')) by {
            if s.drop_last().contains('.') {
                let i = choose|i: int| 0 <= i < s.drop_last().len() && s.drop_last()[i] == '.';
                assert(s[i] == '.');
            }
        }
        lemma_extension_without_dot(s.drop_last());
        assert(s.drop_last().push(s.last()) =~= s);
    }
}

/// The media type that a lowercase file extension names, if it is a known one.
pub open spec fn mime_of_extension(ext: Seq<char>) -> Option<Seq<char>> {
    if ext == "png"@ {
        Some("image/png"@)
    } else if ext == "jpg"@ || ext == "jpeg"@ {
        Some("image/jpeg"@)
    } else if ext == "gif"@ {
        Some("image/gif"@)
    } else if ext == "webp"@ {
        Some("image/webp"@)
    } else if ext == "mp4"@ {
        Some("video/mp4"@)
    } else if ext == "webm"@ {
        Some("video/webm"@)
    } else if ext == "ogv"@ {
        Some("video/ogg"@)
    } else if ext == "mp3"@ {
        Some("audio/mpeg"@)
    } else if ext == "wav"@ {
        Some("audio/wav"@)
    } else if ext == "flac"@ {
        Some("audio/flac"@)
    } else if ext == "oga"@ || ext == "ogg"@ {
        Some("audio/ogg"@)
    } else {
        None
    }
}

/// The media type of a link whose extension tells nothing.
pub open spec fn fallback_mime(url: Seq<char>) -> Seq<char> {
    if ("http://"@.len() <= url.len() && url.subrange(0, "http://"@.len() as int) == "http://"@)
        || ("https://"@.len() <= url.len() && url.subrange(0, "https://"@.len() as int)
        == "https://"@) {
        "application/octet-stream"@
    } else {
        "text/plain"@
    }
}

/// The media type guessed for a link.
pub open spec fn mime_of_url(url: Seq<char>) -> Seq<char> {
    match mime_of_extension(lower_of(extension_of(url))) {
        Some(m) => m,
        None => fallback_mime(url),
    }
}

fn text_is(s: &String, lit: &str) -> (r: bool)
    ensures
        r == (s@ == lit@),
{
    *s == lit.to_owned()
}

/// The media type of a link whose extension tells nothing: binary data for a web
/// link, plain text otherwise.
pub fn default_mime(url: &str) -> (r: String)
    ensures
        r@ == fallback_mime(url@),
{
    if begins_with(url, "http://") || begins_with(url, "https://") {
        "application/octet-stream".to_owned()
    } else {
        "text/plain".to_owned()
    }
}

/// Guesses the media type of a link from its file extension.
pub fn mime_from_extension(url: &str) -> (r: String)
    ensures
        r@ == mime_of_url(url@),
{
    let ext = match split_at_last_dot(url) {
        Some((a, b)) => {
            proof {
                lemma_extension_after_dot(a@, b@);
            }
            lowercase(b)
        },
        None => {
            proof {
                lemma_extension_without_dot(url@);
            }
            lowercase(url)
        },
    };
    if text_is(&ext, "png") {
        "image/png".to_owned()
    } else if text_is(&ext, "jpg") || text_is(&ext, "jpeg") {
        "image/jpeg".to_owned()
    } else if text_is(&ext, "gif") {
        "image/gif".to_owned()
    } else if text_is(&ext, "webp") {
        "image/webp".to_owned()
    } else if text_is(&ext, "mp4") {
        "video/mp4".to_owned()
    } else if text_is(&ext, "webm") {
        "video/webm".to_owned()
    } else if text_is(&ext, "ogv") {
        "video/ogg".to_owned()
    } else if text_is(&ext, "mp3") {
        "audio/mpeg".to_owned()
    } else if text_is(&ext, "wav") {
        "audio/wav".to_owned()
    } else if text_is(&ext, "flac") {
        "audio/flac".to_owned()
    } else if text_is(&ext, "oga") || text_is(&ext, "ogg") {
        "audio/ogg".to_owned()
    } else {
        default_mime(url)
    }
}

#[verifier::external_type_specification]
#[verifier::external_body]
pub struct ExFrag(hhkodo::Frag);

/// A piece of markup: plain text, or a tag with its value and what it encloses.
#[derive(Debug)]
pub enum MarkupFrag {
    Raw(String),
    Tag { name: String, val: Option<String>, subfrags: Vec<MarkupFrag> },
}

/// What hhkodo's `parse_frags` gives for a text, in the library's form.
pub uninterp spec fn markup_of(input: Seq<char>) -> Seq<MarkupFrag>;

/// Converts hhkodo's fragment tree one for one; tag parameters are not kept.
#[verifier::external_body]
fn convert_frag(f: hhkodo::Frag) -> MarkupFrag {
    match f {
        hhkodo::Frag::Raw(t) => MarkupFrag::Raw(t),
        hhkodo::Frag::Tag { name, val, subfrags, .. } => {
            let mut v = Vec::new();
            for sub in subfrags {
                v.push(convert_frag(sub));
            }
            MarkupFrag::Tag { name, val, subfrags: v }
        },
    }
}

/// Relies on hhkodo::parse_frags: the markup of a text as fragments, which depend on
/// the text alone.
#[verifier::external_body]
fn markup_frags(input: &str) -> (r: Vec<MarkupFrag>)
    ensures
        r@ == markup_of(input@),
{
    let mut v = Vec::new();
    for f in hhkodo::parse_frags(input) {
        v.push(convert_frag(f));
    }
    v
}

/// The text of the only fragment of `subfrags`, where that is plain text.
pub open spec fn raw_of(subfrags: Seq<MarkupFrag>) -> Option<Seq<char>> {
    if subfrags.len() == 1 && subfrags[0] is Raw {
        Some(subfrags[0]->Raw_0@)
    } else {
        None
    }
}

/// A link with `https:` put before it where it starts with `//`.
pub open spec fn with_scheme(u: Seq<char>) -> Seq<char> {
    if u.len() >= 2 && u.subrange(0, 2) == "//"@ {
        "https:"@ + u
    } else {
        u
    }
}

/// A media fragment of kind `kind` for link `u`, with its guessed media type.
pub open spec fn media_view(kind: int, u: Seq<char>) -> (int, Seq<char>, Seq<char>) {
    (kind, with_scheme(u), mime_of_url(with_scheme(u)))
}

/// The message fragments that markup stands for: images, videos and audio whose tag
/// encloses only a link become media, links become link fragments, other tags give
/// what they enclose, and empty texts vanish.
pub open spec fn markup_fragments(fs: Seq<MarkupFrag>) -> Seq<(int, Seq<char>, Seq<char>)>
    decreases fs,
{
    if fs.len() == 0 {
        Seq::empty()
    } else {
        let init = markup_fragments(fs.subrange(0, fs.len() - 1));
        let last = match fs[fs.len() - 1] {
            MarkupFrag::Raw(t) => if t@.len() > 0 {
                seq![text_view(t@)]
            } else {
                Seq::empty()
            },
            MarkupFrag::Tag { name, val, subfrags } => {
                let tag = lower_of(name@);
                let raw = raw_of(subfrags@);
                let kind = if tag == "img"@ || tag == "image"@ {
                    1int
                } else if tag == "video"@ {
                    2
                } else if tag == "audio"@ {
                    3
                } else {
                    0
                };
                if kind > 0 && raw is Some {
                    seq![media_view(kind, raw.unwrap())]
                } else if tag == "url"@ && (val is Some || raw is Some) {
                    let link = match val {
                        Some(v) => v@,
                        None => raw.unwrap(),
                    };
                    seq![(4int, with_scheme(link), Seq::<char>::empty())]
                } else {
                    markup_fragments(subfrags@)
                }
            },
        };
        init + last
    }
}

/// The text of the only fragment of `subfrags`, where that is plain text.
pub fn extract_raw(subfrags: &Vec<MarkupFrag>) -> (r: Option<String>)
    ensures
        match r {
            Some(t) => raw_of(subfrags@) == Some(t@),
            None => raw_of(subfrags@) is None,
        },
{
    if subfrags.len() == 1 {
        if let MarkupFrag::Raw(text) = &subfrags[0] {
            return Some(text.clone());
        }
    }
    None
}

fn scheme_fixed(u: String) -> (r: String)
    ensures
        r@ == with_scheme(u@),
{
    if begins_with(u.as_str(), "//") {
        proof {
            reveal_strlit("//");
        }
        "https:".to_owned().concat(u.as_str())
    } else {
        proof {
            reveal_strlit("//");
        }
        u
    }
}

/// Turns markup into message fragments.
pub fn frags_to_message(frags: &Vec<MarkupFrag>) -> (r: Vec<MessageFragment>)
    ensures
        frag_views(r@) == markup_fragments(frags@),
    decreases frags@,
{
    let mut out: Vec<MessageFragment> = Vec::new();
    let mut i: usize = 0;
    assert(frags@.subrange(0, 0) =~= Seq::<MarkupFrag>::empty());
    assert(frag_views(out@) =~= Seq::<(int, Seq<char>, Seq<char>)>::empty());
    while i < frags.len()
        invariant
            0 <= i <= frags@.len(),
            frag_views(out@) == markup_fragments(frags@.subrange(0, i as int)),
        decreases frags.len() - i,
    {
        let ghost before = out@;
        let ghost sub = frags@.subrange(0, i + 1);
        assert(sub.subrange(0, i as int) =~= frags@.subrange(0, i as int));
        assert(sub[i as int] == frags@[i as int]);
        let ghost last = markup_fragments(sub).subrange(frag_views(before).len() as int, markup_fragments(sub).len() as int);
        match &frags[i] {
            MarkupFrag::Raw(text) => {
                if !text.as_str().is_empty() {
                    out.push(MessageFragment::Text(text.clone()));
                }
            },
            MarkupFrag::Tag { name, val, subfrags } => {
                let tag = lowercase(name.as_str());
                let raw = extract_raw(subfrags);
                let kind: u8 = if text_is(&tag, "img") || text_is(&tag, "image") {
                    1
                } else if text_is(&tag, "video") {
                    2
                } else if text_is(&tag, "audio") {
                    3
                } else {
                    0
                };
                let is_url = text_is(&tag, "url");
                if kind > 0 && raw.is_some() {
                    let url = scheme_fixed(raw.unwrap());
                    let mime = mime_from_extension(url.as_str());
                    if kind == 1 {
                        out.push(MessageFragment::Image { url, mime });
                    } else if kind == 2 {
                        out.push(MessageFragment::Video { url, mime });
                    } else {
                        out.push(MessageFragment::Audio { url, mime });
                    }
                } else if is_url && (val.is_some() || raw.is_some()) {
                    let link = match val {
                        Some(v) => v.clone(),
                        None => raw.unwrap(),
                    };
                    out.push(MessageFragment::Url(scheme_fixed(link)));
                } else {
                    proof {
                        assert(decreases_to!(frags@ => frags@[i as int]));
                    }
                    let inner = frags_to_message(subfrags);
                    let mut k: usize = 0;
                    let ghost start = out@;
                    while k < inner.len()
                        invariant
                            0 <= k <= inner@.len(),
                            out@ == start + inner@.subrange(0, k as int),
                        decreases inner.len() - k,
                    {
                        out.push(inner[k].clone());
                        assert(out@ =~= start + inner@.subrange(0, k + 1));
                        k = k + 1;
                    }
                    assert(inner@.subrange(0, inner@.len() as int) =~= inner@);
                    assert(frag_views(out@) =~= frag_views(start) + frag_views(inner@));
                }
            },
        }
        assert(frag_views(out@) =~= markup_fragments(sub));
        i = i + 1;
    }
    assert(frags@.subrange(0, frags@.len() as int) =~= frags@);
    out
}

/// Turns a markup text into message fragments.
pub fn parse_bbcode(input: &str) -> (r: Vec<MessageFragment>)
    ensures
        frag_views(r@) == markup_fragments(markup_of(input@)),
{
    let frags = markup_frags(input);
    frags_to_message(&frags)
}

} // verus!
