//! The fixed color palette: one color per token kind and per UI role,
//! chosen once and never mutated.

use vstd::prelude::*;
use crate::lexer::Tok;

verus! {

/// A display color as red, green and blue components.
#[derive(Clone, Copy, Debug, PartialEq, Eq, Structural)]
pub struct Rgb {
    pub r: u8,
    pub g: u8,
    pub b: u8,
}

/// A user-interface role with a color of its own, distinct from the token
/// kinds.
#[derive(Clone, Copy, Debug, PartialEq, Eq, Structural)]
pub enum UiRole {
    /// The frame background.
    Background,
    /// The line numbers in the gutter.
    LineNumber,
    /// The help bar across the top.
    HelpBar,
    /// The text inside the help bar.
    HelpText,
}

/// The color of each token kind.
pub open spec fn spec_token_color(t: Tok) -> Rgb {
    match t {
        Tok::Number => (Rgb { r: 181, g: 206, b: 168 }),
        Tok::StringLit => (Rgb { r: 206, g: 145, b: 120 }),
        Tok::Identifier => (Rgb { r: 212, g: 212, b: 212 }),
        Tok::ArithOp => (Rgb { r: 197, g: 134, b: 192 }),
        Tok::Keyword => (Rgb { r: 86, g: 156, b: 214 }),
        Tok::Punctuation => (Rgb { r: 212, g: 212, b: 212 }),
        Tok::Separator => (Rgb { r: 156, g: 220, b: 254 }),
        Tok::Function => (Rgb { r: 220, g: 220, b: 170 }),
        Tok::Whitespace => (Rgb { r: 27, g: 27, b: 30 }),
        Tok::Type => (Rgb { r: 78, g: 201, b: 176 }),
    }
}

/// The color of each UI role.
pub open spec fn spec_role_color(role: UiRole) -> Rgb {
    match role {
        UiRole::Background => (Rgb { r: 27, g: 27, b: 30 }),
        UiRole::LineNumber => (Rgb { r: 125, g: 125, b: 133 }),
        UiRole::HelpBar => (Rgb { r: 19, g: 19, b: 21 }),
        UiRole::HelpText => (Rgb { r: 245, g: 245, b: 255 }),
    }
}

/// Look up the display color of a token kind. Every kind has exactly one
/// color; there is no error case.
pub fn to_color(tok: Tok) -> (c: Rgb)
    ensures
        c == spec_token_color(tok),
{
    match tok {
        Tok::Number => Rgb { r: 181, g: 206, b: 168 },
        Tok::StringLit => Rgb { r: 206, g: 145, b: 120 },
        Tok::Identifier => Rgb { r: 212, g: 212, b: 212 },
        Tok::ArithOp => Rgb { r: 197, g: 134, b: 192 },
        Tok::Keyword => Rgb { r: 86, g: 156, b: 214 },
        Tok::Punctuation => Rgb { r: 212, g: 212, b: 212 },
        Tok::Separator => Rgb { r: 156, g: 220, b: 254 },
        Tok::Function => Rgb { r: 220, g: 220, b: 170 },
        Tok::Whitespace => Rgb { r: 27, g: 27, b: 30 },
        Tok::Type => Rgb { r: 78, g: 201, b: 176 },
    }
}

/// Look up the display color of a UI role.
pub fn role_color(role: UiRole) -> (c: Rgb)
    ensures
        c == spec_role_color(role),
{
    match role {
        UiRole::Background => Rgb { r: 27, g: 27, b: 30 },
        UiRole::LineNumber => Rgb { r: 125, g: 125, b: 133 },
        UiRole::HelpBar => Rgb { r: 19, g: 19, b: 21 },
        UiRole::HelpText => Rgb { r: 245, g: 245, b: 255 },
    }
}

} // verus!
