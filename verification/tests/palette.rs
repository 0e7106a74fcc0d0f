use keystone::lexer::{classify, Tok};
use keystone::palette::{role_color, to_color, Rgb, UiRole};

#[test]
fn every_token_kind_has_its_fixed_color() {
    assert_eq!(to_color(Tok::Number), Rgb { r: 181, g: 206, b: 168 });
    assert_eq!(to_color(Tok::StringLit), Rgb { r: 206, g: 145, b: 120 });
    assert_eq!(to_color(Tok::Identifier), Rgb { r: 212, g: 212, b: 212 });
    assert_eq!(to_color(Tok::ArithOp), Rgb { r: 197, g: 134, b: 192 });
    assert_eq!(to_color(Tok::Keyword), Rgb { r: 86, g: 156, b: 214 });
    assert_eq!(to_color(Tok::Punctuation), Rgb { r: 212, g: 212, b: 212 });
    assert_eq!(to_color(Tok::Separator), Rgb { r: 156, g: 220, b: 254 });
    assert_eq!(to_color(Tok::Function), Rgb { r: 220, g: 220, b: 170 });
    assert_eq!(to_color(Tok::Whitespace), Rgb { r: 27, g: 27, b: 30 });
    assert_eq!(to_color(Tok::Type), Rgb { r: 78, g: 201, b: 176 });
}

#[test]
fn role_colors_are_fixed() {
    assert_eq!(role_color(UiRole::Background), Rgb { r: 27, g: 27, b: 30 });
    assert_eq!(role_color(UiRole::LineNumber), Rgb { r: 125, g: 125, b: 133 });
    assert_eq!(role_color(UiRole::HelpBar), Rgb { r: 19, g: 19, b: 21 });
    assert_eq!(role_color(UiRole::HelpText), Rgb { r: 245, g: 245, b: 255 });
}

#[test]
fn keyword_text_paints_in_the_keyword_color() {
    let kind = classify(&"var".to_string());
    assert_eq!(to_color(kind), Rgb { r: 86, g: 156, b: 214 });
}
