use vstd::prelude::*;

verus! {

/// The pieces of server text that are decoded: two entities and a spaced line break.
pub const HTML_PATTERN: &'static str = "&lt;|&gt;|\\s<br/>\\s";

/// What replacing every match of `pattern` in `s` by its `html_replacement` gives.
pub uninterp spec fn entities_replaced(s: Seq<char>, pattern: Seq<char>) -> Seq<char>;

/// Relies on regex::Regex::new and Regex::replace_all: each match of `pattern` in `s`
/// replaced by what `html_replacement` gives for it; `s` unchanged where the pattern
/// does not compile.
#[verifier::external_body]
fn replace_matches(s: &str, pattern: &str) -> (r: String)
    ensures
        r@ == entities_replaced(s@, pattern@),
{
    match regex::Regex::new(pattern) {
        Ok(re) => re.replace_all(s, |caps: &regex::Captures| html_replacement(&caps[0])).to_string(),
        Err(_) => s.to_string(),
    }
}

/// The text that a decoded piece stands for: `<` and `>` for their entities, a line
/// break for anything else.
pub fn html_replacement(m: &str) -> (r: &'static str)
    ensures
        m@ == "&lt;"@ ==> r@ == "<"@,
        m@ == "&gt;"@ ==> r@ == ">"@,
        m@ != "&lt;"@ && m@ != "&gt;"@ ==> r@ == "\n"@,
{
    proof {
        reveal_strlit("&lt;");
        reveal_strlit("&gt;");
        assert("&lt;"@[1] != "&gt;"@[1]);
    }
    let owned = m.to_owned();
    if owned == "&lt;".to_owned() {
        "<"
    } else if owned == "&gt;".to_owned() {
        ">"
    } else {
        "\n"
    }
}

/// Decodes the entities and spaced line breaks of a server text.
pub fn parse_html(s: String) -> (r: String)
    ensures
        r@ == entities_replaced(s@, HTML_PATTERN@),
{
    replace_matches(s.as_str(), HTML_PATTERN)
}

} // verus!
