use keystone::document::Document;
use keystone::editor::{apply_event, apply_events, EditEvent, EditorState};

fn doc(text: &str) -> Document {
    Document::new(text.to_string())
}

#[test]
fn backspace_on_empty_document_is_a_noop() {
    let mut d = doc("");
    d.backspace();
    assert_eq!(d.text(), "");
    assert_eq!(d.len(), 0);
}

#[test]
fn backspace_removes_last_character() {
    let mut d = doc("ab");
    d.backspace();
    assert_eq!(d.text(), "a");
    d.backspace();
    assert_eq!(d.text(), "");
    d.backspace();
    assert_eq!(d.text(), "");
}

#[test]
fn appends_go_to_the_end() {
    let mut d = doc("var");
    d.append_str(" x");
    assert_eq!(d.text(), "var x");
    d.append_newline();
    assert_eq!(d.text(), "var x\n");
}

#[test]
fn text_input_event_appends() {
    let mut d = doc("a");
    let st = apply_event(&mut d, &EditEvent::TextInput("bc".to_string()));
    assert_eq!(st, EditorState::Running);
    assert_eq!(d.text(), "abc");
}

#[test]
fn return_event_appends_newline() {
    let mut d = doc("a");
    let st = apply_event(&mut d, &EditEvent::KeyReturn);
    assert_eq!(st, EditorState::Running);
    assert_eq!(d.text(), "a\n");
}

#[test]
fn backspace_event_on_empty_document_keeps_it_empty() {
    let mut d = doc("");
    let st = apply_event(&mut d, &EditEvent::KeyBackspace);
    assert_eq!(st, EditorState::Running);
    assert_eq!(d.text(), "");
}

#[test]
fn other_events_are_ignored() {
    let mut d = doc("keep");
    let st = apply_event(&mut d, &EditEvent::Other);
    assert_eq!(st, EditorState::Running);
    assert_eq!(d.text(), "keep");
}

#[test]
fn quit_and_escape_terminate_without_editing() {
    let mut d = doc("keep");
    assert_eq!(apply_event(&mut d, &EditEvent::Quit), EditorState::Terminated);
    assert_eq!(d.text(), "keep");
    assert_eq!(apply_event(&mut d, &EditEvent::KeyEscape), EditorState::Terminated);
    assert_eq!(d.text(), "keep");
}

#[test]
fn event_batch_is_applied_in_arrival_order() {
    let mut d = doc("");
    let evs = vec![
        EditEvent::TextInput("var".to_string()),
        EditEvent::TextInput(" xy".to_string()),
        EditEvent::KeyBackspace,
        EditEvent::KeyReturn,
        EditEvent::Other,
    ];
    let st = apply_events(&mut d, &evs);
    assert_eq!(st, EditorState::Running);
    assert_eq!(d.text(), "var x\n");
}

#[test]
fn events_after_a_quit_are_dropped() {
    let mut d = doc("keep");
    let evs = vec![
        EditEvent::KeyEscape,
        EditEvent::TextInput("never".to_string()),
        EditEvent::KeyBackspace,
    ];
    let st = apply_events(&mut d, &evs);
    assert_eq!(st, EditorState::Terminated);
    assert_eq!(d.text(), "keep");
}

#[test]
fn immediate_quit_round_trips_the_loaded_file() {
    let loaded = "var x: int\nprintln(x)";
    let mut d = doc(loaded);
    let st = apply_events(&mut d, &vec![EditEvent::Quit]);
    assert_eq!(st, EditorState::Terminated);
    assert_eq!(d.text(), loaded);
}
