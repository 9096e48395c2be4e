use oshatori::utils::assets::{merge_text_frags, parse_assets};
use oshatori::utils::bbcode::{default_mime, mime_from_extension, parse_bbcode};
use oshatori::utils::color::kanii_to_rgba;
use oshatori::utils::html::parse_html;
use oshatori::{Asset, AssetSource, MessageFragment};

#[test]
fn media_types_from_extensions() {
    assert_eq!(mime_from_extension("https://x/a.PNG"), "image/png");
    assert_eq!(mime_from_extension("a.jpeg"), "image/jpeg");
    assert_eq!(mime_from_extension("clip.webm"), "video/webm");
    assert_eq!(mime_from_extension("song.oga"), "audio/ogg");
    assert_eq!(mime_from_extension("https://x/file.bin"), "application/octet-stream");
    assert_eq!(mime_from_extension("notes"), "text/plain");
    assert_eq!(default_mime("http://x"), "application/octet-stream");
    assert_eq!(default_mime("ftp://x"), "text/plain");
}

#[test]
fn entities_are_decoded() {
    assert_eq!(parse_html("&lt;b&gt; and &amp;".to_string()), "<b> and &amp;");
    assert_eq!(parse_html("a <br/> b".to_string()), "a\nb");
}

#[test]
fn colours_become_rgba() {
    assert_eq!(kanii_to_rgba("#ff0000"), Some([255, 0, 0, 255]));
    assert_eq!(kanii_to_rgba("not a colour"), None);
}

fn smile() -> Asset {
    Asset::Emote {
        id: Some("smile".to_string()),
        pattern: ":(?:smile):".to_string(),
        src: "https://e/smile.png".to_string(),
        source: AssetSource::Server,
    }
}

#[test]
fn assets_are_matched_in_text() {
    let frags = parse_assets("hi :smile: there :smile:", &vec![smile()]);
    assert_eq!(
        frags,
        vec![
            MessageFragment::Text("hi ".to_string()),
            MessageFragment::AssetId("smile".to_string()),
            MessageFragment::Text(" there ".to_string()),
            MessageFragment::AssetId("smile".to_string()),
        ]
    );
    assert_eq!(parse_assets("plain", &vec![smile()]), vec![MessageFragment::Text("plain".to_string())]);
    assert_eq!(parse_assets("", &vec![smile()]), vec![]);
}

#[test]
fn text_runs_are_merged() {
    let merged = merge_text_frags(vec![
        MessageFragment::Text("a".to_string()),
        MessageFragment::Text("".to_string()),
        MessageFragment::Text("b".to_string()),
        MessageFragment::Url("u".to_string()),
        MessageFragment::Text("".to_string()),
    ]);
    assert_eq!(merged, vec![MessageFragment::Text("ab".to_string()), MessageFragment::Url("u".to_string())]);
}

#[test]
fn markup_becomes_fragments() {
    assert_eq!(
        parse_bbcode("look [img]//x.org/a.png[/img]"),
        vec![
            MessageFragment::Text("look ".to_string()),
            MessageFragment::Image { url: "https://x.org/a.png".to_string(), mime: "image/png".to_string() },
        ]
    );
    assert_eq!(
        parse_bbcode("[url=http://a.b]site[/url]"),
        vec![MessageFragment::Url("http://a.b".to_string())]
    );
    assert_eq!(parse_bbcode("[b]bold[/b]"), vec![MessageFragment::Text("bold".to_string())]);
}

#[test]
fn assets_with_non_ascii_aliases_keep_the_following_text() {
    let cafe = Asset::Emote {
        id: Some("café".to_string()),
        pattern: ":(?:café):".to_string(),
        src: "https://e/c.png".to_string(),
        source: AssetSource::Server,
    };
    assert_eq!(
        parse_assets(":café: ok", &vec![cafe]),
        vec![MessageFragment::AssetId("café".to_string()), MessageFragment::Text(" ok".to_string())]
    );
}
