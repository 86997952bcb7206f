use super::JSONParser;
use super::errors::ParserError;
use super::grammar::array_at;
use super::grammar::object_at;
use super::grammar::char_at;
use super::grammar::entries_after;
use super::grammar::entries_at;
use super::grammar::entry;
use super::grammar::items_after;
use super::grammar::items_at;
use super::grammar::key_at;
use super::grammar::lemma_value_dispatch;
use super::grammar::next_key_at;
use super::grammar::position_at;
use super::grammar::remaining;
use super::grammar::separator_at;
use super::grammar::value_at;
use super::is_decimal_digit;
use super::spans::lemma_value_spans;
use super::spans::spans_within;
use super::viewed;
use crate::text::byte_len;
use crate::values::ArrayToken;
use crate::values::ArrayView;
use crate::values::ObjectToken;
use crate::values::ObjectTokenPair;
use crate::values::ObjectView;
use crate::values::PairView;
use crate::values::Token;
use crate::values::TokenView;
use crate::values::constants::ARRAY_END_CHAR;
use crate::values::constants::ARRAY_START_CHAR;
use crate::values::constants::COMMA_CHAR;
use crate::values::constants::OBJECT_END_CHAR;
use crate::values::constants::OBJECT_PAIR_SEPARATOR_CHAR;
use crate::values::constants::OBJECT_START_CHAR;
use crate::values::constants::SPACE_CHAR;
use crate::values::constants::STRING_START_CHAR;
use crate::values::lemma_pairs_view_push;
use crate::values::lemma_tokens_view_push;
use crate::values::pairs_view;
use crate::values::tokens_view;
use vstd::prelude::*;

verus! {

/// A container that has been entered and waits for its next value: what it holds so far, and
/// for an object the key that the awaited value belongs to.
enum Frame {
    Array { start: usize, values: Vec<Token> },
    Object { start: usize, values: Vec<ObjectTokenPair>, key: String },
}

/// Mathematical value of a [`Frame`].
enum FrameView {
    Array { start: nat, values: Seq<TokenView> },
    Object { start: nat, values: Seq<PairView>, key: Seq<char> },
}

impl View for Frame {
    type V = FrameView;

    closed spec fn view(&self) -> FrameView {
        match self {
            Frame::Array { start, values } => FrameView::Array {
                start: *start as nat,
                values: tokens_view(values@),
            },
            Frame::Object { start, values, key } => FrameView::Object {
                start: *start as nat,
                values: pairs_view(values@),
                key: key@,
            },
        }
    }
}

/// The views of a stack of frames, outermost first.
spec fn frames_view(frames: Seq<Frame>) -> Seq<FrameView> {
    frames.map_values(|f: Frame| f@)
}

/// Where a parse ends once a value has come out at `at` inside the containers `frames`,
/// outermost first: the value goes into the innermost container, the rest of that container is
/// read, and the container in turn is the value that comes out inside the others. A failure
/// ends the parse where it happened.
spec fn settle(
    text: Seq<char>,
    base: nat,
    frames: Seq<FrameView>,
    outcome: Result<TokenView, ParserError>,
    at: nat,
) -> (Result<TokenView, ParserError>, nat)
    decreases frames.len(),
{
    if frames.len() == 0 {
        (outcome, at)
    } else {
        match outcome {
            Err(e) => (Err(e), at),
            Ok(value) => match frames.last() {
                FrameView::Array { start, values } => {
                    let rest = items_after(text, base, at);
                    match rest.outcome {
                        Err(e) => (Err(e), at + rest.moved),
                        Ok(others) => settle(
                            text,
                            base,
                            frames.drop_last(),
                            Ok(
                                TokenView::Array(
                                    ArrayView {
                                        values: values.push(value) + others,
                                        start,
                                        end: position_at(text, base, at + rest.moved),
                                    },
                                ),
                            ),
                            at + rest.moved,
                        ),
                    }
                },
                FrameView::Object { start, values, key } => {
                    let rest = entries_after(text, base, at);
                    match rest.outcome {
                        Err(e) => (Err(e), at + rest.moved),
                        Ok(others) => settle(
                            text,
                            base,
                            frames.drop_last(),
                            Ok(
                                TokenView::Object(
                                    ObjectView {
                                        values: values.push(PairView { key, value }) + others,
                                        start,
                                        end: position_at(text, base, at + rest.moved),
                                    },
                                ),
                            ),
                            at + rest.moved,
                        ),
                    }
                },
            },
        }
    }
}

/// Where a parse ends that still has to read the value at `at` inside `frames`.
spec fn settle_value(text: Seq<char>, base: nat, frames: Seq<FrameView>, at: nat) -> (
    Result<TokenView, ParserError>,
    nat,
) {
    settle(text, base, frames, value_at(text, base, at).outcome, at + value_at(text, base, at).moved)
}

/// Entering an array whose first element is at `at` defers the array to its frame.
proof fn lemma_enter_array(text: Seq<char>, base: nat, frames: Seq<FrameView>, i: nat)
    requires
        i < text.len(),
        text[i as int] == ARRAY_START_CHAR,
        char_at(text, i + entry(text, i)) != Some(ARRAY_END_CHAR),
    ensures
        settle_value(text, base, frames, i) == settle_value(
            text,
            base,
            frames.push(FrameView::Array { start: position_at(text, base, i), values: Seq::empty() }),
            i + entry(text, i),
        ),
{
    reveal(value_at);
    reveal(items_at);
    reveal(items_after);
    reveal(entries_at);
    reveal(entries_after);
    let at = i + entry(text, i);
    let frame = FrameView::Array { start: position_at(text, base, i), values: Seq::empty() };
    assert(frames.push(frame).drop_last() =~= frames);
    let value = value_at(text, base, at);
    if at < text.len() {
        if let Ok(first) = value.outcome {
            let rest = items_after(text, base, at + value.moved);
            if let Ok(others) = rest.outcome {
                assert(Seq::<TokenView>::empty().push(first) + others =~= seq![first] + others);
            }
        }
    }
}

/// Entering an object whose first key has been read defers the object to its frame.
proof fn lemma_enter_object(text: Seq<char>, base: nat, frames: Seq<FrameView>, i: nat, name: Seq<char>)
    requires
        i < text.len(),
        text[i as int] == OBJECT_START_CHAR,
        next_key_at(text, base, i).outcome == Ok::<Option<Seq<char>>, ParserError>(Some(name)),
    ensures
        settle_value(text, base, frames, i) == settle_value(
            text,
            base,
            frames.push(
                FrameView::Object { start: position_at(text, base, i), values: Seq::empty(), key: name },
            ),
            i + next_key_at(text, base, i).moved,
        ),
{
    reveal(value_at);
    reveal(items_at);
    reveal(items_after);
    reveal(entries_at);
    reveal(entries_after);
    let at = i + next_key_at(text, base, i).moved;
    let frame = FrameView::Object {
        start: position_at(text, base, i),
        values: Seq::empty(),
        key: name,
    };
    assert(frames.push(frame).drop_last() =~= frames);
    let value = value_at(text, base, at);
    if let Ok(held) = value.outcome {
        let rest = entries_after(text, base, at + value.moved);
        if let Ok(others) = rest.outcome {
            let pair = PairView { key: name, value: held };
            assert(Seq::<PairView>::empty().push(pair) + others =~= seq![pair] + others);
        }
    }
}

/// What becomes of an array once one more element has come out at `last`: the end of the
/// parse where no separator can be read, the finished array where the closing bracket comes
/// next, and else the array's frame with one element more, waiting for the next.
proof fn lemma_next_item(
    text: Seq<char>,
    base: nat,
    frames: Seq<FrameView>,
    start: nat,
    values: Seq<TokenView>,
    value: TokenView,
    last: nat,
)
    ensures
        ({
            let before = settle(
                text,
                base,
                frames.push(FrameView::Array { start, values }),
                Ok(value),
                last,
            );
            let separator = separator_at(text, last);
            let from = last + separator.moved;
            let at = from + entry(text, from);
            match separator.outcome {
                Err(e) => before == (Err::<TokenView, ParserError>(e), from),
                Ok(_) => if char_at(text, at) == Some(ARRAY_END_CHAR) {
                    before == settle(
                        text,
                        base,
                        frames,
                        Ok(
                            TokenView::Array(
                                ArrayView {
                                    values: values.push(value),
                                    start,
                                    end: position_at(text, base, at),
                                },
                            ),
                        ),
                        at,
                    )
                } else {
                    before == settle_value(
                        text,
                        base,
                        frames.push(FrameView::Array { start, values: values.push(value) }),
                        at,
                    )
                },
            }
        }),
{
    reveal(value_at);
    reveal(items_at);
    reveal(items_after);
    reveal(entries_at);
    reveal(entries_after);
    let separator = separator_at(text, last);
    let from = last + separator.moved;
    let at = from + entry(text, from);
    assert(frames.push(FrameView::Array { start, values }).drop_last() =~= frames);
    assert(frames.push(FrameView::Array { start, values: values.push(value) }).drop_last()
        =~= frames);
    if separator.outcome is Ok {
        if char_at(text, at) == Some(ARRAY_END_CHAR) {
            assert(values.push(value) + Seq::<TokenView>::empty() =~= values.push(value));
        } else if at < text.len() {
            let next = value_at(text, base, at);
            if let Ok(first) = next.outcome {
                let rest = items_after(text, base, at + next.moved);
                if let Ok(others) = rest.outcome {
                    assert(values.push(value) + (seq![first] + others) =~= values.push(value).push(
                        first,
                    ) + others);
                }
            }
        }
    }
}

/// What becomes of an object once the value of one more entry has come out at `last`: the end
/// of the parse where no separator or no key can be read, the finished object where the
/// closing brace comes next, and else the object's frame with one entry more, waiting for the
/// value of the next key.
proof fn lemma_next_entry(
    text: Seq<char>,
    base: nat,
    frames: Seq<FrameView>,
    start: nat,
    values: Seq<PairView>,
    key: Seq<char>,
    value: TokenView,
    last: nat,
)
    ensures
        ({
            let before = settle(
                text,
                base,
                frames.push(FrameView::Object { start, values, key }),
                Ok(value),
                last,
            );
            let separator = separator_at(text, last);
            let from = last + separator.moved;
            let next = next_key_at(text, base, from);
            let at = from + next.moved;
            let held = values.push(PairView { key, value });
            match separator.outcome {
                Err(e) => before == (Err::<TokenView, ParserError>(e), from),
                Ok(_) => match next.outcome {
                    Err(e) => before == (Err::<TokenView, ParserError>(e), at),
                    Ok(None) => before == settle(
                        text,
                        base,
                        frames,
                        Ok(
                            TokenView::Object(
                                ObjectView { values: held, start, end: position_at(text, base, at) },
                            ),
                        ),
                        at,
                    ),
                    Ok(Some(name)) => before == settle_value(
                        text,
                        base,
                        frames.push(FrameView::Object { start, values: held, key: name }),
                        at,
                    ),
                },
            }
        }),
{
    let separator = separator_at(text, last);
    let from = last + separator.moved;
    let next = next_key_at(text, base, from);
    let at = from + next.moved;
    let held = values.push(PairView { key, value });
    reveal(value_at);
    reveal(items_at);
    reveal(items_after);
    reveal(entries_at);
    reveal(entries_after);
    assert(frames.push(FrameView::Object { start, values, key }).drop_last() =~= frames);
    if separator.outcome is Ok {
        match next.outcome {
            Err(e) => {},
            Ok(None) => {
                assert(held + Seq::<PairView>::empty() =~= held);
            },
            Ok(Some(name)) => {
                assert(frames.push(
                    FrameView::Object { start, values: held, key: name },
                ).drop_last() =~= frames);
                let following = value_at(text, base, at);
                if let Ok(first) = following.outcome {
                    let rest = entries_after(text, base, at + following.moved);
                    if let Ok(others) = rest.outcome {
                        let pair = PairView { key: name, value: first };
                        assert(held + (seq![pair] + others) =~= held.push(pair) + others);
                    }
                }
            },
        }
    }
}

/// Where a parse ends that holds the finished value `pending` at `at` inside `frames`, or,
/// holding none, still has to read the value at `at`.
spec fn target(
    text: Seq<char>,
    base: nat,
    frames: Seq<FrameView>,
    pending: Option<Token>,
    at: nat,
) -> (Result<TokenView, ParserError>, nat) {
    match pending {
        Some(token) => settle(text, base, frames, Ok(token@), at),
        None => settle_value(text, base, frames, at),
    }
}

/// A result that may hold a key, with the key replaced by its text.
pub open spec fn key_viewed(r: Result<Option<String>, ParserError>) -> Result<
    Option<Seq<char>>,
    ParserError,
> {
    match r {
        Ok(Some(key)) => Ok(Some(key@)),
        Ok(None) => Ok(None),
        Err(e) => Err(e),
    }
}

impl JSONParser {
    /// Deals with what follows a value: moves onto a comma, or past a run of spaces, and
    /// leaves anything else alone. Fails where the text ends right after the value.
    pub fn skip_separator(&mut self) -> (r: Result<(), ParserError>)
        requires
            old(self).wf(),
        ensures
            final(self).wf(),
            final(self).text() == old(self).text(),
            final(self).base() == old(self).base(),
            r == separator_at(old(self).text(), old(self).cursor()).outcome,
            final(self).cursor() == old(self).cursor() + separator_at(
                old(self).text(),
                old(self).cursor(),
            ).moved,
    {
        proof {
            self.lemma_cursor_in_text();
        }
        match self.peek_char() {
            None => Err(ParserError::UnexpectedEndError),
            Some(c) => {
                if c == COMMA_CHAR {
                    self.next_char();
                } else if c == SPACE_CHAR {
                    self.next_char();
                    self.skip_spaces();
                }
                Ok(())
            },
        }
    }

    /// Moves to where the next element of an array would begin and says whether the closing
    /// bracket stands there instead.
    pub fn next_item(&mut self) -> (closed: bool)
        requires
            old(self).wf(),
        ensures
            final(self).wf(),
            final(self).text() == old(self).text(),
            final(self).base() == old(self).base(),
            final(self).cursor() == old(self).cursor() + entry(
                old(self).text(),
                old(self).cursor(),
            ),
            closed == (char_at(final(self).text(), final(self).cursor()) == Some(ARRAY_END_CHAR)),
    {
        self.next_char();
        self.skip_spaces();
        self.current_char() == Some(ARRAY_END_CHAR)
    }

    /// Moves to the next entry of an object and reads its key and colon, leaving the cursor
    /// on the first character of the value. Returns no key where the closing brace stands
    /// there instead, with the cursor on it.
    pub fn next_key(&mut self) -> (r: Result<Option<String>, ParserError>)
        requires
            old(self).wf(),
        ensures
            final(self).wf(),
            final(self).text() == old(self).text(),
            final(self).base() == old(self).base(),
            key_viewed(r) == next_key_at(old(self).text(), old(self).base(), old(self).cursor()).outcome,
            final(self).cursor() == old(self).cursor() + next_key_at(
                old(self).text(),
                old(self).base(),
                old(self).cursor(),
            ).moved,
    {
        self.next_char();
        self.skip_spaces();
        proof {
            reveal(next_key_at);
            reveal(key_at);
            self.lemma_cursor_in_text();
        }
        // handle empty objects
        if self.current_char() == Some(OBJECT_END_CHAR) {
            return Ok(None);
        }
        // key must be a string
        let key_string_token = match self.parse_string() {
            Ok(token) => token,
            Err(e) => {
                return Err(e);
            },
        };
        self.next_char();
        self.skip_spaces();
        match self.current_char() {
            Some(c) => {
                if c == OBJECT_PAIR_SEPARATOR_CHAR {
                    self.next_char();
                } else {
                    return Err(ParserError::UnexpectedCharacterError(c, self.current_position()));
                }
            },
            None => {
                return Err(ParserError::UnexpectedEndError);
            },
        }
        self.skip_spaces();
        Ok(Some(key_string_token.value))
    }
}

impl JSONParser {
    /// Reads the value under the cursor, whatever its kind, and leaves the cursor on the
    /// value's last character. Containers that are open wait on a stack of their own, so a
    /// deeply nested text costs memory and no call depth.
    pub fn parse_next_token(&mut self) -> (r: Result<Token, ParserError>)
        requires
            old(self).wf(),
        ensures
            final(self).wf(),
            final(self).text() == old(self).text(),
            final(self).base() == old(self).base(),
            viewed(r) == value_at(old(self).text(), old(self).base(), old(self).cursor()).outcome,
            final(self).cursor() == old(self).cursor() + value_at(
                old(self).text(),
                old(self).base(),
                old(self).cursor(),
            ).moved,
            r matches Ok(token) ==> spans_within(token@, old(self).base() + byte_len(old(self).text())),
    {
        let ghost text = self.text();
        let ghost base = self.base();
        let ghost origin = self.cursor();
        let ghost goal = (
            value_at(text, base, origin).outcome,
            origin + value_at(text, base, origin).moved,
        );
        let mut stack: Vec<Frame> = Vec::new();
        let mut pending: Option<Token> = None;
        assert(frames_view(stack@) =~= Seq::<FrameView>::empty());
        loop
            invariant
                self.wf(),
                self.text() == text,
                self.base() == base,
                text == old(self).text(),
                base == old(self).base(),
                origin == old(self).cursor(),
                goal == (value_at(text, base, origin).outcome, origin + value_at(text, base, origin).moved),
                target(text, base, frames_view(stack@), pending, self.cursor()) == goal,
            decreases
                    remaining(text, self.cursor()),
                    (if pending is None {
                        1nat
                    } else {
                        0nat
                    }),
        {
            let ghost frames = frames_view(stack@);
            let ghost at = self.cursor();
            proof {
                self.lemma_cursor_in_text();
            }
            match pending {
                None => {
                    proof {
                        reveal(value_at);
                        reveal(items_at);
                        reveal(entries_at);
                        reveal(next_key_at);
                    }
                    let c = match self.current_char() {
                        Some(c) => c,
                        None => {
                            return Err(ParserError::UnexpectedEndError);
                        },
                    };
                    if is_decimal_digit(c) {
                        match self.parse_number() {
                            Ok(number) => {
                                pending = Some(Token::from(number));
                            },
                            Err(e) => {
                                return Err(e);
                            },
                        }
                    } else if c == STRING_START_CHAR {
                        match self.parse_string() {
                            Ok(string) => {
                                pending = Some(Token::from(string));
                            },
                            Err(e) => {
                                return Err(e);
                            },
                        }
                    } else if c == OBJECT_START_CHAR {
                        let start: usize = self.current_position();
                        match self.next_key() {
                            Err(e) => {
                                return Err(e);
                            },
                            Ok(None) => {
                                let values: Vec<ObjectTokenPair> = Vec::new();
                                pending = Some(
                                    Token::from(
                                        ObjectToken { values, start, end: self.current_position() },
                                    ),
                                );
                            },
                            Ok(Some(key)) => {
                                proof {
                                    lemma_enter_object(text, base, frames, at, key@);
                                }
                                let frame = Frame::Object { start, values: Vec::new(), key };
                                assert(frames_view(stack@.push(frame)) =~= frames.push(frame@));
                                stack.push(frame);
                                pending = None;
                            },
                        }
                    } else if c == ARRAY_START_CHAR {
                        let start: usize = self.current_position();
                        if self.next_item() {
                            let values: Vec<Token> = Vec::new();
                            pending = Some(
                                Token::from(
                                    ArrayToken { values, start, end: self.current_position() },
                                ),
                            );
                        } else {
                            proof {
                                lemma_enter_array(text, base, frames, at);
                            }
                            let frame = Frame::Array { start, values: Vec::new() };
                            assert(frames_view(stack@.push(frame)) =~= frames.push(frame@));
                            stack.push(frame);
                            pending = None;
                        }
                    } else {
                        return Err(
                            ParserError::UnexpectedCharacterError(c, self.current_position()),
                        );
                    }
                },
                Some(done) => {
                    let frame = match stack.pop() {
                        Some(frame) => frame,
                        None => {
                            proof {
                                lemma_value_spans(text, base, origin);
                            }
                            return Ok(done);
                        },
                    };
                    let ghost outer = frames_view(stack@);
                    assert(frames =~= outer.push(frame@));
                    match frame {
                        Frame::Array { start, values } => {
                            let mut values = values;
                            proof {
                                lemma_next_item(
                                    text,
                                    base,
                                    outer,
                                    start as nat,
                                    tokens_view(values@),
                                    done@,
                                    at,
                                );
                                lemma_tokens_view_push(values@, done);
                            }
                            values.push(done);
                            match self.skip_separator() {
                                Ok(_) => {},
                                Err(e) => {
                                    return Err(e);
                                },
                            }
                            if self.next_item() {
                                pending = Some(
                                    Token::from(
                                        ArrayToken { values, start, end: self.current_position() },
                                    ),
                                );
                            } else {
                                let frame = Frame::Array { start, values };
                                assert(frames_view(stack@.push(frame)) =~= outer.push(frame@));
                                stack.push(frame);
                                pending = None;
                            }
                        },
                        Frame::Object { start, values, key } => {
                            let mut values = values;
                            let pair = ObjectTokenPair { key, value: done };
                            proof {
                                lemma_next_entry(
                                    text,
                                    base,
                                    outer,
                                    start as nat,
                                    pairs_view(values@),
                                    key@,
                                    done@,
                                    at,
                                );
                                lemma_pairs_view_push(values@, pair);
                                reveal(next_key_at);
                            }
                            values.push(pair);
                            match self.skip_separator() {
                                Ok(_) => {},
                                Err(e) => {
                                    return Err(e);
                                },
                            }
                            match self.next_key() {
                                Err(e) => {
                                    return Err(e);
                                },
                                Ok(None) => {
                                    pending = Some(
                                        Token::from(
                                            ObjectToken {
                                                values,
                                                start,
                                                end: self.current_position(),
                                            },
                                        ),
                                    );
                                },
                                Ok(Some(key)) => {
                                    let frame = Frame::Object { start, values, key };
                                    assert(frames_view(stack@.push(frame)) =~= outer.push(frame@));
                                    stack.push(frame);
                                    pending = None;
                                },
                            }
                        },
                    }
                },
            }
        }
    }
}

impl JSONParser {
    /// Reads the object whose opening brace is under the cursor and leaves the cursor on its
    /// closing brace. Fails at once, naming the character, where the cursor is not on an
    /// opening brace.
    pub fn parse_object(&mut self) -> (r: Result<ObjectToken, ParserError>)
        requires
            old(self).wf(),
        ensures
            final(self).wf(),
            final(self).text() == old(self).text(),
            final(self).base() == old(self).base(),
            viewed(r) == object_at(old(self).text(), old(self).base(), old(self).cursor()).outcome,
            final(self).cursor() == old(self).cursor() + object_at(
                old(self).text(),
                old(self).base(),
                old(self).cursor(),
            ).moved,
            r matches Ok(token) ==> spans_within(
                TokenView::Object(token@),
                old(self).base() + byte_len(old(self).text()),
            ),
    {
        proof {
            lemma_value_dispatch(self.text(), self.base(), self.cursor());
            self.lemma_cursor_in_text();
        }
        let optional_first_char = self.current_char();
        if optional_first_char != Some(OBJECT_START_CHAR) {
            let found = match optional_first_char {
                Some(c) => c,
                None => '\0',
            };
            return Err(ParserError::UnexpectedCharacterError(found, self.current_position()));
        }
        match self.parse_next_token() {
            Ok(Token::Object(object)) => Ok(object),
            Ok(_) => {
                assert(false);
                unreached()
            },
            Err(e) => Err(e),
        }
    }

    /// Reads the array whose opening bracket is under the cursor and leaves the cursor on its
    /// closing bracket. Fails at once, naming the character, where the cursor is not on an
    /// opening bracket.
    pub fn parse_array(&mut self) -> (r: Result<ArrayToken, ParserError>)
        requires
            old(self).wf(),
        ensures
            final(self).wf(),
            final(self).text() == old(self).text(),
            final(self).base() == old(self).base(),
            viewed(r) == array_at(old(self).text(), old(self).base(), old(self).cursor()).outcome,
            final(self).cursor() == old(self).cursor() + array_at(
                old(self).text(),
                old(self).base(),
                old(self).cursor(),
            ).moved,
            r matches Ok(token) ==> spans_within(
                TokenView::Array(token@),
                old(self).base() + byte_len(old(self).text()),
            ),
    {
        proof {
            lemma_value_dispatch(self.text(), self.base(), self.cursor());
            self.lemma_cursor_in_text();
        }
        let optional_first_char = self.current_char();
        if optional_first_char != Some(ARRAY_START_CHAR) {
            let found = match optional_first_char {
                Some(c) => c,
                None => '\0',
            };
            return Err(ParserError::UnexpectedCharacterError(found, self.current_position()));
        }
        match self.parse_next_token() {
            Ok(Token::Array(array)) => Ok(array),
            Ok(_) => {
                assert(false);
                unreached()
            },
            Err(e) => Err(e),
        }
    }

    /// Parses the text from the cursor on and returns the value found there, a tree of all
    /// the values inside it.
    pub fn parse(&mut self) -> (r: Result<Token, ParserError>)
        requires
            old(self).wf(),
        ensures
            final(self).wf(),
            final(self).text() == old(self).text(),
            final(self).base() == old(self).base(),
            viewed(r) == value_at(old(self).text(), old(self).base(), old(self).cursor()).outcome,
            final(self).cursor() == old(self).cursor() + value_at(
                old(self).text(),
                old(self).base(),
                old(self).cursor(),
            ).moved,
            r matches Ok(token) ==> spans_within(token@, old(self).base() + byte_len(old(self).text())),
    {
        self.parse_next_token()
    }
}

/// A parse depends on the text, on where it begins in its source and on where the cursor
/// stands, and on nothing else: whatever [`JSONParser::parse`] returns for two parsers that
/// agree on the three, it returns the same tree or the same error, and leaves both cursors
/// at the same place.
pub proof fn lemma_parse_repeats(
    first: JSONParser,
    second: JSONParser,
    a: Result<Token, ParserError>,
    b: Result<Token, ParserError>,
)
    requires
        first.text() == second.text(),
        first.base() == second.base(),
        first.cursor() == second.cursor(),
        viewed(a) == value_at(first.text(), first.base(), first.cursor()).outcome,
        viewed(b) == value_at(second.text(), second.base(), second.cursor()).outcome,
    ensures
        viewed(a) == viewed(b),
        value_at(first.text(), first.base(), first.cursor()).moved == value_at(
            second.text(),
            second.base(),
            second.cursor(),
        ).moved,
{
}

} // verus!
