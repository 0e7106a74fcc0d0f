use keystone::layout::{
    advance_after_token, digit_count, frame_plan, gutter_width, is_blank, line_number_label,
    split_lines,
};
use keystone::lexer::Tok;

#[test]
fn gutter_field_width_matches_digit_count() {
    assert_eq!(digit_count(1), 1);
    assert_eq!(digit_count(10), 2);
    assert_eq!(digit_count(9), 1);
    assert_eq!(digit_count(99), 2);
    assert_eq!(digit_count(100), 3);
    assert_eq!(digit_count(0), 1);
}

#[test]
fn line_number_labels_are_plain_decimal() {
    assert_eq!(line_number_label(1), "1");
    assert_eq!(line_number_label(10), "10");
    assert_eq!(line_number_label(907), "907");
    assert_eq!(line_number_label(0), "0");
}

#[test]
fn label_is_as_wide_as_its_digit_count() {
    for n in [1usize, 9, 10, 99, 100, 12345] {
        assert_eq!(line_number_label(n).len(), digit_count(n));
    }
}

#[test]
fn gutter_width_is_digits_times_glyph_plus_margin() {
    assert_eq!(gutter_width(1, 11), 21);
    assert_eq!(gutter_width(2, 11), 32);
    assert_eq!(gutter_width(3, 8), 34);
}

#[test]
fn blank_tokens_advance_by_one_space() {
    assert_eq!(advance_after_token(100, " ", 57, 11), 111);
    assert_eq!(advance_after_token(100, "\t", 57, 11), 111);
    assert_eq!(advance_after_token(100, "var", 57, 11), 157);
}

#[test]
fn blankness_means_pure_whitespace() {
    assert!(is_blank(""));
    assert!(is_blank(" "));
    assert!(is_blank(" \t\r"));
    assert!(!is_blank("a "));
    assert!(!is_blank("."));
}

#[test]
fn split_preserves_empty_lines() {
    assert_eq!(split_lines(""), vec!["".to_string()]);
    assert_eq!(split_lines("a"), vec!["a".to_string()]);
    assert_eq!(split_lines("a\n"), vec!["a".to_string(), "".to_string()]);
    assert_eq!(
        split_lines("\n\n"),
        vec!["".to_string(), "".to_string(), "".to_string()]
    );
    assert_eq!(
        split_lines("var x: int\nprintln(x)"),
        vec!["var x: int".to_string(), "println(x)".to_string()]
    );
}

#[test]
fn frame_plan_lays_out_each_line() {
    let plan = frame_plan("var x: int\nprintln(x)\n");
    assert_eq!(plan.len(), 3);

    assert_eq!(plan[0].label, "1");
    assert_eq!(plan[0].digits, 1);
    assert_eq!(plan[0].tokens.len(), 6);
    assert_eq!(plan[0].tokens[0], (Tok::Keyword, "var".to_string()));
    assert_eq!(plan[0].tokens[5], (Tok::Type, "int".to_string()));

    assert_eq!(plan[1].label, "2");
    assert_eq!(
        plan[1].tokens,
        vec![
            (Tok::Function, "println".to_string()),
            (Tok::Separator, "(".to_string()),
            (Tok::Identifier, "x".to_string()),
            (Tok::Separator, ")".to_string()),
        ]
    );

    assert_eq!(plan[2].label, "3");
    assert!(plan[2].tokens.is_empty());
}

#[test]
fn split_then_join_round_trips() {
    for text in ["", "one", "var x: int\nprintln(x)", "a\n", "\n\n", "trailing\nempty\n\n"] {
        assert_eq!(split_lines(text).join("\n"), text);
    }
}
