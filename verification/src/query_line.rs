//! The query text under edit, with its cursor.

use vstd::prelude::*;
use vstd::string::StrSliceExecFns;

verus! {

/// The query line as a plain value: its characters and the cursor, which
/// counts the characters in front of it.
pub struct Line {
    pub text: Seq<char>,
    pub cursor: nat,
}

impl Line {
    /// The cursor stands within the text or at its end.
    pub open spec fn wf(self) -> bool {
        self.cursor <= self.text.len()
    }

    /// The line with `c` typed at the cursor.
    pub open spec fn after_insert(self, c: char) -> Line {
        Line { text: self.text.insert(self.cursor as int, c), cursor: self.cursor + 1 }
    }

    /// The line with the character in front of the cursor rubbed out.
    pub open spec fn after_backspace(self) -> Line {
        if self.cursor > 0 {
            Line { text: self.text.remove(self.cursor - 1), cursor: (self.cursor - 1) as nat }
        } else {
            self
        }
    }

    /// The cursor one character to the left, unless at the start.
    pub open spec fn after_left(self) -> Line {
        Line {
            text: self.text,
            cursor: if self.cursor > 0 {
                (self.cursor - 1) as nat
            } else {
                0
            },
        }
    }

    /// The cursor one character to the right, unless at the end.
    pub open spec fn after_right(self) -> Line {
        Line {
            text: self.text,
            cursor: if self.cursor < self.text.len() {
                self.cursor + 1
            } else {
                self.text.len()
            },
        }
    }
}

/// Calls `String::push`, which appends one character to the string.
#[verifier::external_body]
pub(crate) fn push_char(text: &mut String, c: char)
    ensures
        final(text)@ == old(text)@.push(c),
{
    text.push(c)
}

/// The string made of the given characters.
pub fn string_of(chars: &Vec<char>) -> (text: String)
    ensures
        text@ == chars@,
{
    let mut text = String::new();
    let mut i: usize = 0;
    while i < chars.len()
        invariant
            i <= chars@.len(),
            text@ == chars@.take(i as int),
        decreases chars@.len() - i,
    {
        push_char(&mut text, chars[i]);
        assert(text@ =~= chars@.take(i + 1));
        i = i + 1;
    }
    assert(chars@.take(i as int) =~= chars@);
    text
}

/// The characters of a string.
pub fn chars_of(text: &str) -> (chars: Vec<char>)
    ensures
        chars@ == text@,
{
    let total = text.unicode_len();
    let mut chars: Vec<char> = Vec::new();
    let mut i: usize = 0;
    while i < total
        invariant
            i <= total,
            total == text@.len(),
            chars@ == text@.take(i as int),
        decreases total - i,
    {
        chars.push(text.get_char(i));
        assert(chars@ =~= text@.take(i + 1));
        i = i + 1;
    }
    assert(text@.take(i as int) =~= text@);
    chars
}

/// The query text under edit.
pub struct QueryLine {
    chars: Vec<char>,
    cursor: usize,
}

impl View for QueryLine {
    type V = Line;

    closed spec fn view(&self) -> Line {
        Line { text: self.chars@, cursor: self.cursor as nat }
    }
}

impl QueryLine {
    /// A line that holds `text`, with the cursor at its start.
    pub fn new(text: &str) -> (line: Self)
        ensures
            line@ == (Line { text: text@, cursor: 0 }),
            line@.wf(),
    {
        QueryLine { chars: chars_of(text), cursor: 0 }
    }

    /// Empties the line.
    pub fn clear(&mut self)
        ensures
            final(self)@ == (Line { text: Seq::empty(), cursor: 0 }),
            final(self)@.wf(),
    {
        self.chars.clear();
        self.cursor = 0;
    }

    /// Types `c` at the cursor.
    pub fn insert(&mut self, c: char)
        requires
            old(self)@.wf(),
        ensures
            final(self)@ == old(self)@.after_insert(c),
            final(self)@.wf(),
    {
        self.chars.insert(self.cursor, c);
        let total = self.chars.len();
        self.cursor = self.cursor + 1;
    }

    /// Rubs out the character in front of the cursor. Returns whether
    /// there was one.
    pub fn backspace(&mut self) -> (changed: bool)
        requires
            old(self)@.wf(),
        ensures
            final(self)@ == old(self)@.after_backspace(),
            final(self)@.wf(),
            changed == (old(self)@.cursor > 0),
    {
        if self.cursor > 0 {
            self.cursor = self.cursor - 1;
            self.chars.remove(self.cursor);
            true
        } else {
            false
        }
    }

    /// Moves the cursor one character to the left.
    pub fn left(&mut self)
        requires
            old(self)@.wf(),
        ensures
            final(self)@ == old(self)@.after_left(),
            final(self)@.wf(),
    {
        if self.cursor > 0 {
            self.cursor = self.cursor - 1;
        }
    }

    /// Moves the cursor one character to the right.
    pub fn right(&mut self)
        requires
            old(self)@.wf(),
        ensures
            final(self)@ == old(self)@.after_right(),
            final(self)@.wf(),
    {
        if self.cursor < self.chars.len() {
            self.cursor = self.cursor + 1;
        }
    }

    /// Whether the line holds no character.
    pub fn is_empty(&self) -> (empty: bool)
        ensures
            empty == (self@.text.len() == 0),
    {
        self.chars.len() == 0
    }

    /// The cursor: the number of characters in front of it.
    pub fn cursor(&self) -> (cursor: usize)
        ensures
            cursor == self@.cursor,
    {
        self.cursor
    }

    /// The text of the line.
    pub fn text(&self) -> (text: String)
        ensures
            text@ == self@.text,
    {
        string_of(&self.chars)
    }
}

} // verus!
