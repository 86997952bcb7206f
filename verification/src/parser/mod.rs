use crate::text::byte_len;
use crate::text::char_width;
use crate::text::leading_bytes;
use crate::text::lemma_byte_len_push;
use crate::text::lemma_byte_len_take;
use crate::text::trimmed;
use crate::text::trimmed_chars;
use crate::values::constants::SPACE_CHAR;
use errors::ParserError;
use grammar::char_at;
use grammar::is_digit;
use grammar::position_at;
use grammar::previous_at;
use grammar::space_run;
use grammar::step;
use vstd::prelude::*;

pub mod engine;
pub mod errors;
pub mod grammar;
pub mod productions;
pub mod spans;

verus! {

/// A cursor over the characters of a text, and the productions that read values from it.
pub struct JSONParser {
    chars: Vec<char>,
    base: usize,
    cursor: usize,
    overran: bool,
    current_position: usize,
    prev_char: Option<char>,
    current_char: Option<char>,
}

/// A result with its value replaced by the value's view.
pub open spec fn viewed<T: View>(r: Result<T, ParserError>) -> Result<T::V, ParserError> {
    match r {
        Ok(t) => Ok(t@),
        Err(e) => Err(e),
    }
}

/// Whether `c` is one of the ten decimal digits.
pub fn is_decimal_digit(c: char) -> (b: bool)
    ensures
        b == is_digit(c),
{
    '0' <= c && c <= '9'
}

impl JSONParser {
    /// The text being read.
    pub closed spec fn text(&self) -> Seq<char> {
        self.chars@
    }

    /// Byte offset at which the text begins in the source it was cut from.
    pub closed spec fn base(&self) -> nat {
        self.base as nat
    }

    /// Index of the character under the cursor; the length of the text once it is used up,
    /// and one more once the cursor has been asked to advance from there.
    pub closed spec fn cursor(&self) -> nat {
        if self.overran {
            (self.cursor + 1) as nat
        } else {
            self.cursor as nat
        }
    }

    /// The character that was under the cursor before it last advanced.
    pub open spec fn previous(&self) -> Option<char> {
        previous_at(self.text(), self.cursor())
    }

    /// The cached character, previous character and byte position are the ones that the text
    /// and the cursor give, and every byte position of the text fits the machine.
    pub closed spec fn wf(&self) -> bool {
        &&& self.cursor <= self.chars@.len()
        &&& self.overran ==> self.cursor == self.chars@.len()
        &&& self.base + byte_len(self.chars@) <= usize::MAX
        &&& self.current_char == char_at(self.chars@, self.cursor())
        &&& self.current_position == position_at(self.chars@, self.base as nat, self.cursor())
        &&& self.prev_char == previous_at(self.chars@, self.cursor())
    }

    /// A parser at the first character of `chars`, which are taken to begin `base` bytes
    /// into their source.
    pub fn from_chars_at(chars: Vec<char>, base: usize) -> (parser: JSONParser)
        requires
            base + byte_len(chars@) <= usize::MAX,
        ensures
            parser.wf(),
            parser.text() == chars@,
            parser.base() == base,
            parser.cursor() == 0,
    {
        let current_char = if chars.len() > 0 {
            Some(chars[0])
        } else {
            None
        };
        assert(chars@.take(0) =~= Seq::<char>::empty());
        JSONParser {
            chars,
            base,
            cursor: 0,
            overran: false,
            current_position: base,
            prev_char: None,
            current_char,
        }
    }

    /// A parser at the first character of `chars`, with byte positions counted from there.
    pub fn from_chars(chars: Vec<char>) -> (parser: JSONParser)
        requires
            byte_len(chars@) <= usize::MAX,
        ensures
            parser.wf(),
            parser.text() == chars@,
            parser.base() == 0,
            parser.cursor() == 0,
    {
        JSONParser::from_chars_at(chars, 0)
    }

    /// A parser at the first character of `json_string` once the white space at both of its
    /// ends is set aside. Byte positions count from the start of `json_string`, the white
    /// space before the first character included.
    pub fn new(json_string: &str) -> (parser: JSONParser)
        ensures
            parser.wf(),
            parser.text() == trimmed(json_string@),
            parser.base() == leading_bytes(json_string@),
            parser.cursor() == 0,
    {
        let (chars, base) = trimmed_chars(json_string);
        JSONParser::from_chars_at(chars, base)
    }

    /// The cursor goes at most one step beyond the text, and no byte position of the text
    /// is beyond the machine.
    pub proof fn lemma_cursor_in_text(&self)
        requires
            self.wf(),
        ensures
            self.cursor() <= self.text().len() + 1,
            self.base() + byte_len(self.text()) <= usize::MAX,
    {
    }

    /// The character under the cursor.
    pub fn current_char(&self) -> (c: Option<char>)
        requires
            self.wf(),
        ensures
            c == char_at(self.text(), self.cursor()),
    {
        self.current_char
    }

    /// The character that was under the cursor before it last advanced: the one before the
    /// cursor, and none at the start or once the cursor has stepped off the end.
    pub fn prev_char(&self) -> (c: Option<char>)
        requires
            self.wf(),
        ensures
            c == self.previous(),
    {
        self.prev_char
    }

    /// The byte offset of the character under the cursor.
    pub fn current_position(&self) -> (position: usize)
        requires
            self.wf(),
        ensures
            position == position_at(self.text(), self.base(), self.cursor()),
    {
        self.current_position
    }

    /// Moves the cursor one character forward and returns the character it then stands on.
    /// From the last character it moves off the text and returns none; asked again it moves
    /// once more, and from then on it stays.
    pub fn next_char(&mut self) -> (c: Option<char>)
        requires
            old(self).wf(),
        ensures
            final(self).wf(),
            final(self).text() == old(self).text(),
            final(self).base() == old(self).base(),
            final(self).cursor() == old(self).cursor() + step(old(self).text(), old(self).cursor()),
            final(self).previous() == char_at(old(self).text(), old(self).cursor()),
            c == char_at(final(self).text(), final(self).cursor()),
    {
        self.prev_char = self.current_char;
        if self.cursor < self.chars.len() {
            let width: usize = char_width(self.chars[self.cursor]);
            proof {
                let i = self.cursor as int;
                lemma_byte_len_push(self.chars@.take(i), self.chars@[i]);
                assert(self.chars@.take(i).push(self.chars@[i]) =~= self.chars@.take(i + 1));
                lemma_byte_len_take(self.chars@, i + 1, self.chars@.len() as int);
                assert(self.chars@.take(self.chars@.len() as int) =~= self.chars@);
            }
            self.cursor = self.cursor + 1;
            if self.cursor < self.chars.len() {
                self.current_position = self.current_position + width;
                self.current_char = Some(self.chars[self.cursor]);
            } else {
                self.current_char = None;
            }
        } else {
            self.overran = true;
            self.current_char = None;
        }
        self.current_char
    }

    /// The character after the one under the cursor, which stays where it is.
    pub fn peek_char(&self) -> (c: Option<char>)
        requires
            self.wf(),
        ensures
            c == char_at(self.text(), self.cursor() + 1),
    {
        if self.cursor < self.chars.len() && self.cursor + 1 < self.chars.len() {
            Some(self.chars[self.cursor + 1])
        } else {
            None
        }
    }

    /// Moves the cursor past the run of space characters it stands on, if any. Tabs and line
    /// breaks are not spaces and stop it.
    pub fn skip_spaces(&mut self)
        requires
            old(self).wf(),
        ensures
            final(self).wf(),
            final(self).text() == old(self).text(),
            final(self).base() == old(self).base(),
            final(self).cursor() == old(self).cursor() + space_run(
                old(self).text(),
                old(self).cursor(),
            ),
    {
        while self.current_char == Some(SPACE_CHAR)
            invariant
                self.wf(),
                self.text() == old(self).text(),
                self.base() == old(self).base(),
                old(self).cursor() <= self.cursor(),
                space_run(old(self).text(), old(self).cursor()) == (self.cursor() - old(
                    self,
                ).cursor()) + space_run(self.text(), self.cursor()),
            decreases self.text().len() - self.cursor(),
        {
            self.next_char();
        }
    }
}

} // verus!
