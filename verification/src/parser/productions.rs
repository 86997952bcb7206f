use super::JSONParser;
use super::errors::ParserError;
use super::grammar::number_at;
use super::grammar::number_run;
use super::grammar::string_at;
use super::grammar::string_run;
use super::is_decimal_digit;
use super::spans::lemma_number_span;
use super::spans::lemma_position_in_text;
use super::spans::lemma_string_span;
use super::viewed;
use crate::text::byte_len;
use crate::values::NumberToken;
use crate::values::StringToken;
use crate::values::constants::DOT_CHAR;
use crate::values::constants::SKIP_CHAR;
use crate::values::constants::STRING_END_CHAR;
use crate::values::constants::STRING_START_CHAR;
use vstd::prelude::*;

verus! {

impl JSONParser {
    /// Reads a number: the digit under the cursor and every digit or decimal point after it.
    /// The cursor is left on the last character of the literal. Where the cursor is not on a
    /// digit nothing is read.
    pub fn parse_number(&mut self) -> (r: Result<NumberToken, ParserError>)
        requires
            old(self).wf(),
        ensures
            final(self).wf(),
            final(self).text() == old(self).text(),
            final(self).base() == old(self).base(),
            viewed(r) == number_at(old(self).text(), old(self).base(), old(self).cursor()).outcome,
            final(self).cursor() == old(self).cursor() + number_at(
                old(self).text(),
                old(self).base(),
                old(self).cursor(),
            ).moved,
            r matches Ok(token) ==> token.start <= token.end < old(self).base() + byte_len(old(self).text())
                && token.start + token.value@.len() == token.end + 1,
    {
        proof {
            reveal(number_at);
            lemma_number_span(self.text(), self.base(), self.cursor());
        }
        let start: usize = self.current_position();
        let first_char = match self.current_char() {
            Some(c) => c,
            None => {
                return Err(ParserError::UnexpectedEndError);
            },
        };
        if !is_decimal_digit(first_char) {
            return Err(ParserError::UnexpectedEndError);
        }
        let mut value_str = String::new();
        value_str.push(first_char);
        let ghost text = self.text();
        let ghost base = self.base();
        let ghost from = self.cursor();
        proof {
            self.lemma_cursor_in_text();
            assert(text.subrange(from as int, from + 1 as int) =~= seq![first_char]);
        }
        loop
            invariant
                self.wf(),
                self.text() == text,
                self.base() == base,
                from <= self.cursor() < text.len(),
                value_str@ == text.subrange(from as int, self.cursor() + 1 as int),
                number_run(text, from + 1) == (self.cursor() - from) + number_run(
                    text,
                    self.cursor() + 1,
                ),
            ensures
                number_run(text, self.cursor() + 1) == 0,
            decreases text.len() - self.cursor(),
        {
            let c = match self.peek_char() {
                Some(c) => c,
                None => {
                    break ;
                },
            };
            if !(is_decimal_digit(c) || c == DOT_CHAR) {
                break ;
            }
            value_str.push(c);
            assert(text.subrange(from as int, self.cursor() + 1 as int).push(c) =~= text.subrange(
                from as int,
                self.cursor() + 2 as int,
            ));
            self.next_char();
        }
        Ok(NumberToken { value: value_str, start, end: self.current_position() })
    }

    /// Reads a string: the quote under the cursor and everything up to the first quote that no
    /// backslash stands before; backslashes stay in the content as written. The cursor is left
    /// on the closing quote, or past the end of a text that has none.
    pub fn parse_string(&mut self) -> (r: Result<StringToken, ParserError>)
        requires
            old(self).wf(),
        ensures
            final(self).wf(),
            final(self).text() == old(self).text(),
            final(self).base() == old(self).base(),
            viewed(r) == string_at(old(self).text(), old(self).base(), old(self).cursor()).outcome,
            final(self).cursor() == old(self).cursor() + string_at(
                old(self).text(),
                old(self).base(),
                old(self).cursor(),
            ).moved,
            r matches Ok(token) ==> token.start <= token.end < old(self).base() + byte_len(old(self).text()),
    {
        let ghost text = self.text();
        let ghost base = self.base();
        let ghost from = self.cursor();
        proof {
            reveal(string_at);
            lemma_string_span(self.text(), self.base(), self.cursor());
            self.lemma_cursor_in_text();
        }
        let first_char = match self.current_char() {
            Some(c) => c,
            None => {
                return Err(ParserError::UnexpectedEndError);
            },
        };
        if first_char != STRING_START_CHAR {
            return Err(ParserError::UnexpectedCharacterError(first_char, self.current_position()));
        }
        self.next_char();
        let start: usize = self.current_position();
        let mut value_str = String::new();
        let mut closing_char_found = false;
        proof {
            assert(text.subrange(from + 1 as int, from + 1 as int) =~= Seq::<char>::empty());
        }
        loop
            invariant_except_break
                !closing_char_found,
            invariant
                self.wf(),
                self.text() == text,
                self.base() == base,
                from + 1 <= self.cursor() <= text.len(),
                value_str@ == text.subrange(from + 1 as int, self.cursor() as int),
                string_run(text, from + 1) == (self.cursor() - from - 1) + string_run(
                    text,
                    self.cursor(),
                ),
            ensures
                string_run(text, self.cursor()) == 0,
                closing_char_found <==> self.cursor() < text.len(),
            decreases text.len() - self.cursor(),
        {
            let c = match self.current_char() {
                Some(c) => c,
                None => {
                    break ;
                },
            };
            if c == STRING_END_CHAR {
                // ensure previous character is not a skip '\'
                proof {
                    self.lemma_cursor_in_text();
                }
                let escaped = match self.prev_char() {
                    Some(prev_c) => prev_c == SKIP_CHAR,
                    None => false,
                };
                if !escaped {
                    closing_char_found = true;
                    break ;
                }
            }
            value_str.push(c);
            proof {
                assert(text.subrange(from + 1 as int, self.cursor() as int).push(c)
                    =~= text.subrange(from + 1 as int, self.cursor() + 1 as int));
            }
            self.next_char();
        }
        let position: usize = self.current_position();
        let end: usize = if start == position {
            start
        } else {
            position - 1
        };
        if closing_char_found {
            proof {
                lemma_position_in_text(text, base, from + 1, self.cursor());
            }
            Ok(StringToken { value: value_str, start, end })
        } else {
            Err(ParserError::UnexpectedEndError)
        }
    }
}

} // verus!
