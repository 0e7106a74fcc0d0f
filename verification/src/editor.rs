//! The editor's event interpretation: how raw input events become edits of
//! the document, and when the edit session ends.
//!
//! The embedding application polls the host for events, converts them to
//! [`EditEvent`] values, and applies them here; everything the editor
//! decides about an event is verified.

use vstd::prelude::*;
use crate::document::Document;

verus! {

/// An input event, as the editor sees it.
pub enum EditEvent {
    /// The window was asked to close.
    Quit,
    /// Typed text arrived.
    TextInput(String),
    /// The Escape key went down.
    KeyEscape,
    /// The Return key went down.
    KeyReturn,
    /// The Backspace key went down.
    KeyBackspace,
    /// Any other event; ignored.
    Other,
}

/// State of the edit session.
#[derive(Clone, Copy, Debug, PartialEq, Eq, Structural)]
pub enum EditorState {
    Running,
    Terminated,
}

/// Effect of one event on a document with contents `doc`: the new contents
/// and the state after the event. A quit request or Escape terminates and
/// leaves the document as it is; typed text and Return append at the end;
/// Backspace removes the last character, doing nothing on an empty
/// document; every other event changes nothing.
pub open spec fn spec_apply_event(doc: Seq<char>, ev: EditEvent) -> (Seq<char>, EditorState) {
    match ev {
        EditEvent::Quit => (doc, EditorState::Terminated),
        EditEvent::KeyEscape => (doc, EditorState::Terminated),
        EditEvent::TextInput(s) => (doc + s@, EditorState::Running),
        EditEvent::KeyReturn => (doc.push('\n'), EditorState::Running),
        EditEvent::KeyBackspace => (
            if doc.len() == 0 {
                doc
            } else {
                doc.drop_last()
            },
            EditorState::Running,
        ),
        EditEvent::Other => (doc, EditorState::Running),
    }
}

/// Effect of draining a batch of events in arrival order: events are
/// applied one by one until one terminates the session, and the events
/// after it are dropped.
pub open spec fn spec_apply_events(doc: Seq<char>, evs: Seq<EditEvent>) -> (
    Seq<char>,
    EditorState,
)
    decreases evs.len(),
{
    if evs.len() == 0 {
        (doc, EditorState::Running)
    } else {
        let stepped = spec_apply_event(doc, evs[0]);
        if stepped.1 == EditorState::Terminated {
            stepped
        } else {
            spec_apply_events(stepped.0, evs.drop_first())
        }
    }
}

/// Apply one input event to the document.
pub fn apply_event(doc: &mut Document, ev: &EditEvent) -> (st: EditorState)
    ensures
        final(doc)@ == spec_apply_event(old(doc)@, *ev).0,
        st == spec_apply_event(old(doc)@, *ev).1,
{
    match ev {
        EditEvent::Quit => EditorState::Terminated,
        EditEvent::KeyEscape => EditorState::Terminated,
        EditEvent::TextInput(s) => {
            doc.append_str(s.as_str());
            EditorState::Running
        },
        EditEvent::KeyReturn => {
            doc.append_newline();
            EditorState::Running
        },
        EditEvent::KeyBackspace => {
            doc.backspace();
            EditorState::Running
        },
        EditEvent::Other => EditorState::Running,
    }
}

/// Drain a batch of pending input events in arrival order. Returns
/// `Terminated` as soon as one event ends the session; the events after it
/// are dropped, as the session is over.
pub fn apply_events(doc: &mut Document, evs: &Vec<EditEvent>) -> (st: EditorState)
    ensures
        final(doc)@ == spec_apply_events(old(doc)@, evs@).0,
        st == spec_apply_events(old(doc)@, evs@).1,
{
    let n = evs.len();
    let mut i: usize = 0;
    proof {
        assert(evs@.subrange(0, n as int) =~= evs@);
    }
    while i < n
        invariant
            0 <= i <= n,
            n == evs@.len(),
            spec_apply_events(old(doc)@, evs@) == spec_apply_events(
                doc@,
                evs@.subrange(i as int, n as int),
            ),
        decreases n - i,
    {
        let ghost tail = evs@.subrange(i as int, n as int);
        proof {
            assert(tail[0] == evs@[i as int]);
            assert(tail.drop_first() =~= evs@.subrange(i + 1, n as int));
        }
        let st = apply_event(doc, &evs[i]);
        if matches!(st, EditorState::Terminated) {
            return EditorState::Terminated;
        }
        i = i + 1;
    }
    proof {
        assert(evs@.subrange(n as int, n as int) =~= Seq::<EditEvent>::empty());
    }
    EditorState::Running
}

/// A session that is quit at once leaves the document exactly as it was:
/// when the first event of the batch terminates the session, the document's
/// contents after draining equal the contents before.
pub proof fn lemma_immediate_quit_preserves_document(doc: Seq<char>, evs: Seq<EditEvent>)
    requires
        evs.len() > 0,
        evs[0] == EditEvent::Quit || evs[0] == EditEvent::KeyEscape,
    ensures
        spec_apply_events(doc, evs).0 == doc,
        spec_apply_events(doc, evs).1 == EditorState::Terminated,
{
}

} // verus!
