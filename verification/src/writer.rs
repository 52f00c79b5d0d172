//! The output buffer of the serializer and its indentation rule.
//!
//! A writer holds the text written so far and an indentation level. Text
//! written while the buffer ends in a newline is preceded by the current
//! indentation, four spaces per level.

use vstd::prelude::*;
use crate::text::string_of;

verus! {

/// The mathematical state of a writer: the text so far and the indentation
/// level.
pub struct WriterState {
    pub text: Seq<char>,
    pub level: nat,
}

/// Four spaces.
pub open spec fn indent_unit() -> Seq<char> {
    seq![' ', ' ', ' ', ' ']
}

/// The whitespace that opens a line at the given level.
pub open spec fn indentation(level: nat) -> Seq<char>
    decreases level,
{
    if level == 0 {
        Seq::empty()
    } else {
        indentation((level - 1) as nat) + indent_unit()
    }
}

impl WriterState {
    /// The empty buffer at level zero.
    pub open spec fn start() -> WriterState {
        WriterState { text: Seq::empty(), level: 0 }
    }

    /// Whether the buffer ends in a newline.
    pub open spec fn at_line_start(self) -> bool {
        self.text.len() > 0 && self.text.last() == '\n'
    }

    /// The buffer with the pending indentation written out, if a line has
    /// just been opened.
    pub open spec fn indented(self) -> WriterState {
        if self.at_line_start() {
            WriterState { text: self.text + indentation(self.level), level: self.level }
        } else {
            self
        }
    }

    /// Writes `item`, indenting first when the buffer ends in a newline.
    pub open spec fn write(self, item: Seq<char>) -> WriterState {
        WriterState { text: self.indented().text + item, level: self.level }
    }

    /// Ends the line. A buffer that ends in a carriage return gets a second
    /// one first, so that the first is not read as part of the line ending.
    pub open spec fn newline(self) -> WriterState {
        if self.text.len() > 0 && self.text.last() == '\r' {
            WriterState { text: self.text.push('\r').push('\n'), level: self.level }
        } else {
            WriterState { text: self.text.push('\n'), level: self.level }
        }
    }

    /// Puts `ch` in place of the last character of the indented buffer; on an
    /// empty buffer `ch` is appended.
    pub open spec fn mark(self, ch: char) -> WriterState {
        let t = self.indented().text;
        if t.len() > 0 {
            WriterState { text: t.drop_last().push(ch), level: self.level }
        } else {
            WriterState { text: t.push(ch), level: self.level }
        }
    }

    /// One level deeper.
    pub open spec fn indent(self) -> WriterState {
        WriterState { text: self.text, level: self.level + 1 }
    }

    /// One level back. Level zero has no level below it and stays.
    pub open spec fn dedent(self) -> WriterState {
        WriterState { text: self.text, level: if self.level > 0 { (self.level - 1) as nat } else { 0 } }
    }
}

/// The executable writer.
pub struct TextWriter {
    buffer: Vec<char>,
    indent_level: usize,
}

impl View for TextWriter {
    type V = WriterState;

    closed spec fn view(&self) -> WriterState {
        WriterState { text: self.buffer@, level: self.indent_level as nat }
    }
}

impl TextWriter {
    /// An empty writer at level zero.
    pub fn new() -> (w: TextWriter)
        ensures
            w@ == WriterState::start(),
    {
        TextWriter { buffer: Vec::new(), indent_level: 0 }
    }

    /// Whether the indentation level does not exceed the number of
    /// characters written. The serializer keeps to this, and so its level
    /// always fits the counter.
    pub open spec fn roomy(&self) -> bool {
        self@.level <= self@.text.len()
    }

    /// Whether one more level fits.
    pub open spec fn can_indent(&self) -> bool {
        self@.level < self@.text.len()
    }

    /// The text of a writer is no longer than the machine can count.
    pub proof fn lemma_text_fits(&self)
        ensures
            self@.text.len() <= usize::MAX,
    {
        assert(self.buffer@.len() == self.buffer.len());
    }

    /// One level deeper. The level is a machine counter and must have room.
    pub fn indent(&mut self)
        requires
            old(self)@.level < usize::MAX,
        ensures
            final(self)@ == old(self)@.indent(),
    {
        self.indent_level = self.indent_level + 1;
    }

    /// One level back.
    pub fn dedent(&mut self)
        requires
            old(self)@.level > 0,
        ensures
            final(self)@ == old(self)@.dedent(),
    {
        self.indent_level = self.indent_level - 1;
    }

    fn ends_with(&self, ch: char) -> (b: bool)
        ensures
            b == (self@.text.len() > 0 && self@.text.last() == ch),
    {
        let n = self.buffer.len();
        n > 0 && self.buffer[n - 1] == ch
    }

    fn write_indent(&mut self)
        ensures
            final(self)@.text == old(self)@.text + indentation(old(self)@.level),
            final(self)@.level == old(self)@.level,
    {
        let mut i: usize = 0;
        while i < self.indent_level
            invariant
                i <= self.indent_level,
                self.indent_level == old(self).indent_level,
                self.buffer@ == old(self).buffer@ + indentation(i as nat),
            decreases self.indent_level - i,
        {
            self.buffer.push(' ');
            self.buffer.push(' ');
            self.buffer.push(' ');
            self.buffer.push(' ');
            i += 1;
            assert(indentation(i as nat) == indentation((i - 1) as nat) + indent_unit());
        }
    }

    /// Ends the line.
    pub fn newline(&mut self)
        ensures
            final(self)@ == old(self)@.newline(),
    {
        if self.ends_with('\r') {
            self.buffer.push('\r');
        }
        self.buffer.push('\n');
    }

    /// Writes the characters of `item`, indenting first when the buffer ends
    /// in a newline.
    pub fn write_literal(&mut self, item: &str)
        ensures
            final(self)@ == old(self)@.write(item@),
    {
        if self.ends_with('\n') {
            self.write_indent();
        }
        let ghost base = self.buffer@;
        for c in it: item.chars()
            invariant
                it.seq() == item@,
                self.indent_level == old(self).indent_level,
                self.buffer@ == base + it.seq().take(it.index() as int),
        {
            self.buffer.push(c);
        }
        assert(item@.take(item@.len() as int) =~= item@);
        assert(self@.text =~= old(self)@.write(item@).text);
    }

    /// Puts `ch` in place of the last character of the indented buffer.
    pub fn write_char_into_indent(&mut self, ch: char)
        ensures
            final(self)@ == old(self)@.mark(ch),
    {
        if self.ends_with('\n') {
            self.write_indent();
        }
        self.buffer.pop();
        self.buffer.push(ch);
    }

    /// The text written.
    pub fn into_string(self) -> (s: String)
        ensures
            s@ == self@.text,
    {
        string_of(&self.buffer)
    }
}

} // verus!
