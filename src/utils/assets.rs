use vstd::prelude::*;
use crate::{fragment_view, Asset, MessageFragment};

verus! {

/// Relies on String::push: one more character at the end.
#[verifier::external_body]
fn push_char(s: &mut String, c: char)
    ensures
        final(s)@ == old(s)@.push(c),
{
    s.push(c)
}

/// The characters of `cs` from `start` on, as a text.
fn string_from(cs: &Vec<char>, start: usize) -> (r: String)
    requires
        start <= cs@.len(),
    ensures
        r@ == cs@.subrange(start as int, cs@.len() as int),
{
    let mut out = String::new();
    let mut j: usize = start;
    while j < cs.len()
        invariant
            start <= j <= cs@.len(),
            out@ == cs@.subrange(start as int, j as int),
        decreases cs.len() - j,
    {
        push_char(&mut out, cs[j]);
        assert(out@ =~= cs@.subrange(start as int, j + 1));
        j = j + 1;
    }
    out
}

/// The characters of a text.
fn chars_of(text: &str) -> (r: Vec<char>)
    ensures
        r@ == text@,
{
    let mut out: Vec<char> = Vec::new();
    for c in it: text.chars()
        invariant
            it.seq() == text@,
            out@ == it.seq().subrange(0, it.index() as int),
    {
        out.push(c);
    }
    out
}

/// Where the regex crate finds the leftmost match of `pattern` in `text`, as byte
/// offsets; `None` where the pattern does not compile or nothing matches.
pub uninterp spec fn leftmost_match(pattern: Seq<char>, text: Seq<char>) -> Option<(usize, usize)>;

/// Relies on regex::Regex::new and Regex::find: the leftmost match of `pattern` in
/// `text`, or `None` where the pattern does not compile or nothing matches.
#[verifier::external_body]
fn find_leftmost(pattern: &str, text: &str) -> (r: Option<(usize, usize)>)
    ensures
        r == leftmost_match(pattern@, text@),
{
    match regex::Regex::new(pattern) {
        Ok(re) => match re.find(text) {
            Some(m) => Some((m.start(), m.end())),
            None => None,
        },
        Err(_) => None,
    }
}

/// A fragment as values, as `fragment_view` gives it.
pub open spec fn frag_views(fs: Seq<MessageFragment>) -> Seq<(int, Seq<char>, Seq<char>)> {
    fs.map_values(|f: MessageFragment| fragment_view(f))
}

pub open spec fn text_view(t: Seq<char>) -> (int, Seq<char>, Seq<char>) {
    (0, t, Seq::empty())
}

/// `acc` with the pending text `cur` appended as a text fragment, unless it is empty.
pub open spec fn flush(acc: Seq<(int, Seq<char>, Seq<char>)>, cur: Seq<char>) -> Seq<(int, Seq<char>, Seq<char>)> {
    if cur.len() > 0 {
        acc.push(text_view(cur))
    } else {
        acc
    }
}

/// Runs of text fragments joined into one, empty texts dropped, from position `j` on,
/// with `cur` the text pending and `acc` what is done.
pub open spec fn merge_from(
    fs: Seq<(int, Seq<char>, Seq<char>)>,
    j: int,
    cur: Seq<char>,
    acc: Seq<(int, Seq<char>, Seq<char>)>,
) -> Seq<(int, Seq<char>, Seq<char>)>
    decreases fs.len() - j,
{
    if j >= fs.len() || j < 0 {
        flush(acc, cur)
    } else if fs[j].0 == 0 {
        merge_from(fs, j + 1, cur + fs[j].1, acc)
    } else {
        merge_from(fs, j + 1, Seq::empty(), flush(acc, cur).push(fs[j]))
    }
}

/// The fragments with each run of text fragments joined, and empty texts dropped.
pub open spec fn merged(fs: Seq<(int, Seq<char>, Seq<char>)>) -> Seq<(int, Seq<char>, Seq<char>)> {
    merge_from(fs, 0, Seq::empty(), Seq::empty())
}

/// Joins runs of text fragments into one; other fragments keep their place.
pub fn merge_text_frags(fragments: Vec<MessageFragment>) -> (r: Vec<MessageFragment>)
    ensures
        frag_views(r@) == merged(frag_views(fragments@)),
{
    let ghost fs = frag_views(fragments@);
    let mut result: Vec<MessageFragment> = Vec::new();
    let mut cur = String::new();
    let mut j: usize = 0;
    assert(frag_views(result@) =~= Seq::<(int, Seq<char>, Seq<char>)>::empty());
    while j < fragments.len()
        invariant
            0 <= j <= fragments@.len(),
            fs == frag_views(fragments@),
            merge_from(fs, j as int, cur@, frag_views(result@)) == merged(fs),
        decreases fragments.len() - j,
    {
        let ghost before = frag_views(result@);
        let ghost c0 = cur@;
        assert(fs[j as int] == fragment_view(fragments@[j as int]));
        match &fragments[j] {
            MessageFragment::Text(t) => {
                cur.append(t.as_str());
            },
            other => {
                if !cur.as_str().is_empty() {
                    result.push(MessageFragment::Text(cur.clone()));
                }
                assert(frag_views(result@) =~= flush(before, c0));
                let ghost mid = frag_views(result@);
                result.push(other.clone());
                assert(frag_views(result@) =~= mid.push(fs[j as int]));
                cur = String::new();
            },
        }
        j = j + 1;
    }
    let ghost before = frag_views(result@);
    let ghost c0 = cur@;
    if !cur.as_str().is_empty() {
        result.push(MessageFragment::Text(cur));
    }
    assert(frag_views(result@) =~= flush(before, c0));
    result
}

/// The matcher pattern of an asset, whichever its kind.
pub fn get_pattern(asset: &Asset) -> (r: String)
    ensures
        r == asset.spec_pattern(),
{
    match asset {
        Asset::Emote { pattern, .. } => pattern.clone(),
        Asset::Sticker { pattern, .. } => pattern.clone(),
        Asset::Audio { pattern, .. } => pattern.clone(),
        Asset::Command { pattern, .. } => pattern.clone(),
    }
}

/// The id of an asset, whichever its kind.
pub fn get_id(asset: &Asset) -> (r: Option<String>)
    ensures
        r == asset.spec_id(),
{
    match asset {
        Asset::Emote { id, .. } => id.clone(),
        Asset::Sticker { id, .. } => id.clone(),
        Asset::Audio { id, .. } => id.clone(),
        Asset::Command { id, .. } => id.clone(),
    }
}

/// The first asset from position `k` of the catalog whose pattern matches a
/// non-empty text at the very start of `rest`, with the end of that match.
pub open spec fn asset_at_start(rest: Seq<char>, assets: Seq<Asset>, k: int) -> Option<(int, int)>
    decreases assets.len() - k,
{
    if k >= assets.len() || k < 0 {
        None
    } else {
        match leftmost_match(assets[k].spec_pattern()@, rest) {
            Some((start, end)) => if start == 0 && end > 0 {
                Some((k, end as int))
            } else {
                asset_at_start(rest, assets, k + 1)
            },
            None => asset_at_start(rest, assets, k + 1),
        }
    }
}

/// How many bytes a character takes in UTF-8.
pub open spec fn utf8_width(c: char) -> int {
    if (c as u32) < 0x80 {
        1
    } else if (c as u32) < 0x800 {
        2
    } else if (c as u32) < 0x10000 {
        3
    } else {
        4
    }
}

/// How many characters from the start of `cs` the first `bytes` bytes of its UTF-8
/// text reach into.
pub open spec fn chars_for_bytes(cs: Seq<char>, bytes: int) -> int
    decreases cs.len(),
{
    if bytes <= 0 || cs.len() == 0 {
        0
    } else {
        1 + chars_for_bytes(cs.drop_first(), bytes - utf8_width(cs[0]))
    }
}

proof fn lemma_chars_for_bytes_bounds(cs: Seq<char>, bytes: int)
    ensures
        0 <= chars_for_bytes(cs, bytes) <= cs.len(),
        bytes > 0 && cs.len() > 0 ==> chars_for_bytes(cs, bytes) >= 1,
    decreases cs.len(),
{
    if bytes > 0 && cs.len() > 0 {
        lemma_chars_for_bytes_bounds(cs.drop_first(), bytes - utf8_width(cs[0]));
    }
}

fn utf8_width_of(c: char) -> (r: usize)
    ensures
        r == utf8_width(c),
{
    let u = c as u32;
    if u < 0x80 {
        1
    } else if u < 0x800 {
        2
    } else if u < 0x10000 {
        3
    } else {
        4
    }
}

/// How many characters of `cs`, from position `start`, the first `bytes` bytes of
/// their UTF-8 text reach into.
fn chars_for(cs: &Vec<char>, start: usize, bytes: usize) -> (r: usize)
    requires
        start <= cs@.len(),
    ensures
        r == chars_for_bytes(cs@.subrange(start as int, cs@.len() as int), bytes as int),
{
    let mut j: usize = start;
    let mut left: usize = bytes;
    while j < cs.len() && left > 0
        invariant
            start <= j <= cs@.len(),
            chars_for_bytes(cs@.subrange(start as int, cs@.len() as int), bytes as int) == (j - start)
                + chars_for_bytes(cs@.subrange(j as int, cs@.len() as int), left as int),
        decreases cs.len() - j,
    {
        let ghost tail = cs@.subrange(j as int, cs@.len() as int);
        let ghost old_left = left;
        assert(tail.drop_first() =~= cs@.subrange(j + 1, cs@.len() as int));
        assert(tail[0] == cs@[j as int]);
        let w = utf8_width_of(cs[j]);
        assert(chars_for_bytes(tail, old_left as int) == 1 + chars_for_bytes(tail.drop_first(), old_left - w));
        if w >= left {
            left = 0;
            assert(chars_for_bytes(tail.drop_first(), old_left - w) == 0);
            assert(chars_for_bytes(cs@.subrange(j + 1, cs@.len() as int), 0) == 0);
        } else {
            left = left - w;
        }
        j = j + 1;
    }
    proof {
        let tail = cs@.subrange(j as int, cs@.len() as int);
        assert(chars_for_bytes(tail, left as int) == 0);
    }
    j - start
}

/// The fragment that a matched asset leaves: its id, where it has one.
pub open spec fn id_frags(a: Asset) -> Seq<(int, Seq<char>, Seq<char>)> {
    match a.spec_id() {
        Some(id) => seq![(5int, id@, Seq::<char>::empty())],
        None => Seq::empty(),
    }
}

/// Scans `cs` from position `i`: at each position the first asset that matches there
/// is taken and the scan goes on after the match; otherwise the character joins the
/// pending text `cur`. `acc` is what is done.
pub open spec fn scan_assets(
    cs: Seq<char>,
    i: int,
    assets: Seq<Asset>,
    cur: Seq<char>,
    acc: Seq<(int, Seq<char>, Seq<char>)>,
) -> Seq<(int, Seq<char>, Seq<char>)>
    decreases cs.len() - i,
{
    if i >= cs.len() || i < 0 {
        flush(acc, cur)
    } else {
        match asset_at_start(cs.subrange(i, cs.len() as int), assets, 0) {
            Some((k, end)) => {
                let next = i + chars_for_bytes(cs.subrange(i, cs.len() as int), end);
                if i < next <= cs.len() {
                    scan_assets(cs, next, assets, Seq::empty(), flush(acc, cur) + id_frags(assets[k]))
                } else {
                    flush(acc, cur)
                }
            },
            None => scan_assets(cs, i + 1, assets, cur.push(cs[i]), acc),
        }
    }
}

/// The fragments that asset matching makes of a text.
pub open spec fn asset_fragments(text: Seq<char>, assets: Seq<Asset>) -> Seq<(int, Seq<char>, Seq<char>)> {
    merged(scan_assets(text, 0, assets, Seq::empty(), Seq::empty()))
}

proof fn lemma_asset_at_start_bounds(rest: Seq<char>, assets: Seq<Asset>, k: int)
    requires
        0 <= k,
    ensures
        asset_at_start(rest, assets, k) matches Some((j, end)) ==> k <= j < assets.len() && end > 0,
    decreases assets.len() - k,
{
    if k < assets.len() {
        lemma_asset_at_start_bounds(rest, assets, k + 1);
    }
}

fn first_asset_at_start(rest: &str, assets: &Vec<Asset>) -> (r: Option<(usize, usize)>)
    ensures
        match r {
            Some((k, end)) => asset_at_start(rest@, assets@, 0) == Some((k as int, end as int)),
            None => asset_at_start(rest@, assets@, 0) is None,
        },
{
    let mut k: usize = 0;
    while k < assets.len()
        invariant
            0 <= k <= assets@.len(),
            asset_at_start(rest@, assets@, k as int) == asset_at_start(rest@, assets@, 0),
        decreases assets.len() - k,
    {
        let pattern = get_pattern(&assets[k]);
        match find_leftmost(pattern.as_str(), rest) {
            Some((start, end)) => {
                if start == 0 && end > 0 {
                    return Some((k, end));
                }
            },
            None => {},
        }
        k = k + 1;
    }
    None
}

/// Splits a text into text fragments and the ids of the catalog assets whose
/// patterns match in it, trying the assets in catalog order at each position.
pub fn parse_assets(text: &str, assets: &Vec<Asset>) -> (r: Vec<MessageFragment>)
    ensures
        frag_views(r@) == asset_fragments(text@, assets@),
{
    let cs = chars_of(text);
    let ghost total = scan_assets(cs@, 0, assets@, Seq::empty(), Seq::empty());
    let mut frags: Vec<MessageFragment> = Vec::new();
    let mut cur = String::new();
    let mut i: usize = 0;
    assert(frag_views(frags@) =~= Seq::<(int, Seq<char>, Seq<char>)>::empty());
    while i < cs.len()
        invariant
            0 <= i <= cs@.len(),
            scan_assets(cs@, i as int, assets@, cur@, frag_views(frags@)) == total,
        decreases cs.len() - i,
    {
        let rest = string_from(&cs, i);
        let ghost before = frag_views(frags@);
        let ghost c0 = cur@;
        match first_asset_at_start(rest.as_str(), assets) {
            Some((k, end)) => {
                proof {
                    lemma_asset_at_start_bounds(rest@, assets@, 0);
                    assert(rest@ == cs@.subrange(i as int, cs@.len() as int));
                }
                if !cur.as_str().is_empty() {
                    frags.push(MessageFragment::Text(cur.clone()));
                }
                assert(frag_views(frags@) =~= flush(before, c0));
                let ghost mid = frag_views(frags@);
                match get_id(&assets[k]) {
                    Some(id) => {
                        frags.push(MessageFragment::AssetId(id));
                    },
                    None => {},
                }
                assert(frag_views(frags@) =~= mid + id_frags(assets@[k as int]));
                cur = String::new();
                let step = chars_for(&cs, i, end);
                proof {
                    lemma_chars_for_bytes_bounds(cs@.subrange(i as int, cs@.len() as int), end as int);
                }
                i = i + step;
            },
            None => {
                assert(rest@ == cs@.subrange(i as int, cs@.len() as int));
                push_char(&mut cur, cs[i]);
                i = i + 1;
            },
        }
    }
    let ghost before = frag_views(frags@);
    let ghost c0 = cur@;
    if !cur.as_str().is_empty() {
        frags.push(MessageFragment::Text(cur));
    }
    assert(frag_views(frags@) =~= flush(before, c0));
    merge_text_frags(frags)
}

} // verus!
