//! The document buffer: the whole file as one mutable string.
//!
//! The edit model is deliberately cursor-less: the only mutations are
//! appending at the end of the buffer and removing the last character.

use vstd::prelude::*;

verus! {

/// The in-memory text of the file being edited.
pub struct Document {
    text: String,
}

impl View for Document {
    type V = Seq<char>;

    closed spec fn view(&self) -> Seq<char> {
        self.text@
    }
}

impl Document {
    /// Create a document holding `text`, as loaded from the file.
    pub fn new(text: String) -> (d: Document)
        ensures
            d@ == text@,
    {
        Document { text }
    }

    /// The current contents, handed back verbatim for display or saving.
    pub fn text(&self) -> (t: &String)
        ensures
            t@ == self@,
    {
        &self.text
    }

    /// Number of characters in the buffer.
    pub fn len(&self) -> (n: usize)
        ensures
            n == self@.len(),
    {
        self.text.as_str().unicode_len()
    }

    /// Append a string at the end of the buffer.
    pub fn append_str(&mut self, s: &str)
        ensures
            final(self)@ == old(self)@ + s@,
    {
        self.text.append(s);
    }

    /// Append a single newline at the end of the buffer.
    pub fn append_newline(&mut self)
        ensures
            final(self)@ == old(self)@.push('\n'),
    {
        self.text.append("\n");
        proof {
            reveal_strlit("\n");
            assert(self@ =~= old(self)@.push('\n'));
        }
    }

    /// Remove the last character of the buffer; on an empty buffer this is
    /// a no-op and never a failure.
    pub fn backspace(&mut self)
        ensures
            old(self)@.len() == 0 ==> final(self)@ == old(self)@,
            old(self)@.len() > 0 ==> final(self)@ == old(self)@.drop_last(),
    {
        let n = self.text.as_str().unicode_len();
        if n > 0 {
            let shortened = self.text.as_str().substring_char(0, n - 1).to_owned();
            self.text = shortened;
            proof {
                assert(self@ =~= old(self)@.drop_last());
            }
        }
    }
}

} // verus!
