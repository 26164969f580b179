//! A text buffer: the editable character sequence behind one form field.
//!
//! It supports appending one character and removing the last character;
//! removing from an empty buffer is a no-op, not an error.

use vstd::prelude::*;

verus! {

/// The character sequence of one form field, edited only while that field
/// holds the focus.
#[derive(Debug)]
pub struct TextBuffer {
    pub chars: Vec<char>,
}

impl View for TextBuffer {
    type V = Seq<char>;

    open spec fn view(&self) -> Seq<char> {
        self.chars@
    }
}

/// The sequence after one character is appended at the end.
pub open spec fn spec_append(s: Seq<char>, c: char) -> Seq<char> {
    s.push(c)
}

/// The sequence after the final character is removed; on an empty sequence
/// nothing changes.
pub open spec fn spec_remove_last(s: Seq<char>) -> Seq<char> {
    if s.len() == 0 {
        s
    } else {
        s.drop_last()
    }
}

impl TextBuffer {
    /// An empty buffer.
    pub fn new() -> (b: TextBuffer)
        ensures
            b@ == Seq::<char>::empty(),
    {
        TextBuffer { chars: Vec::new() }
    }

    /// Appends `c` at the end; no constraint on `c`, no length limit.
    pub fn append_char(&mut self, c: char)
        ensures
            final(self)@ == spec_append(old(self)@, c),
    {
        self.chars.push(c);
    }

    /// Removes the final character if one is present; on an empty buffer this
    /// is a no-op, not an error.
    pub fn remove_last(&mut self)
        ensures
            final(self)@ == spec_remove_last(old(self)@),
    {
        if self.chars.len() > 0 {
            self.chars.pop();
        }
    }

    /// How many characters the buffer holds.
    pub fn len(&self) -> (n: usize)
        ensures
            n == self@.len(),
    {
        self.chars.len()
    }
}

/// Removing the last character undoes exactly one append: after an append of
/// `c` followed by a removal, the content is what it was before the append;
/// and on an empty sequence the removal changes nothing.
pub proof fn lemma_remove_undoes_append(s: Seq<char>, c: char)
    ensures
        spec_remove_last(spec_append(s, c)) == s,
        spec_remove_last(Seq::<char>::empty()) == Seq::<char>::empty(),
{
    assert(spec_remove_last(spec_append(s, c)) =~= s);
}

} // verus!
