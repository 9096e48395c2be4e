pub mod bbcode;
pub mod color;
pub mod html;
pub mod assets;
