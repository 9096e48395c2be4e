use vstd::prelude::*;

verus! {

/// What kanii_lib's `Color::as_rgba` gives for a colour text; `None` where it does
/// not parse.
pub uninterp spec fn rgba_of(value: Seq<char>) -> Option<[u8; 4]>;

/// Relies on kanii_lib's Color::as_rgba: the colour's four channels, or an error
/// where the text is no colour.
#[verifier::external_body]
fn color_rgba(value: &str) -> (r: Option<[u8; 4]>)
    ensures
        r == rgba_of(value@),
{
    match (kanii_lib::packets::types::Color { value: value.to_string() }).as_rgba() {
        Ok(c) => Some(c),
        Err(_) => None,
    }
}

/// Converts a protocol colour text into red, green, blue and alpha.
pub fn kanii_to_rgba(color: &str) -> (r: Option<[u8; 4]>)
    ensures
        r == rgba_of(color@),
{
    color_rgba(color)
}

} // verus!
