use super::errors::ParserError;
use crate::text::byte_len;
use crate::text::leading_bytes;
use crate::text::trimmed;
use crate::values::ArrayView;
use crate::values::NumberView;
use crate::values::ObjectView;
use crate::values::PairView;
use crate::values::StringView;
use crate::values::TokenView;
use crate::values::constants::ARRAY_END_CHAR;
use crate::values::constants::ARRAY_START_CHAR;
use crate::values::constants::COMMA_CHAR;
use crate::values::constants::DOT_CHAR;
use crate::values::constants::OBJECT_END_CHAR;
use crate::values::constants::OBJECT_PAIR_SEPARATOR_CHAR;
use crate::values::constants::OBJECT_START_CHAR;
use crate::values::constants::SKIP_CHAR;
use crate::values::constants::SPACE_CHAR;
use crate::values::constants::STRING_END_CHAR;
use crate::values::constants::STRING_START_CHAR;
use vstd::prelude::*;

verus! {

/// What a production yields when it starts at some character of a text: the value or the
/// failure, and how many characters the cursor has moved forward by then.
pub struct Parsed<T> {
    pub outcome: Result<T, ParserError>,
    pub moved: nat,
}

/// The character under a cursor at `i`; none once the text is used up.
pub open spec fn char_at(text: Seq<char>, i: nat) -> Option<char> {
    if i < text.len() {
        Some(text[i as int])
    } else {
        None
    }
}

/// The byte offset that a cursor at `i` reports, in a text that begins `base` bytes into its
/// source: that of the character under the cursor, and past the end that of the last
/// character.
pub open spec fn position_at(text: Seq<char>, base: nat, i: nat) -> nat {
    if i < text.len() {
        base + byte_len(text.take(i as int))
    } else if text.len() == 0 {
        base
    } else {
        base + byte_len(text.take(text.len() - 1))
    }
}

/// How far one advance moves a cursor at `i`: one character, the last of these steps being
/// the one off the end of the text, after which the cursor stays.
pub open spec fn step(text: Seq<char>, i: nat) -> nat {
    if i <= text.len() {
        1
    } else {
        0
    }
}

/// The character that a cursor at `i` has left last: the one before it, and none at the
/// start of the text or once the cursor has stepped off the end.
pub open spec fn previous_at(text: Seq<char>, i: nat) -> Option<char> {
    if 0 < i <= text.len() {
        Some(text[i - 1])
    } else {
        None
    }
}

/// Characters from `i` to the end of the text.
pub open spec fn remaining(text: Seq<char>, i: nat) -> nat {
    if i < text.len() {
        (text.len() - i) as nat
    } else {
        0
    }
}

/// Length of the run of space characters that starts at `i`. Only the space itself counts:
/// tabs and line breaks are characters like any other.
pub open spec fn space_run(text: Seq<char>, i: nat) -> nat
    decreases remaining(text, i),
{
    if i < text.len() && text[i as int] == SPACE_CHAR {
        1 + space_run(text, i + 1)
    } else {
        0
    }
}

/// How far the cursor moves when it advances once from `i` and then passes over spaces.
pub open spec fn entry(text: Seq<char>, i: nat) -> nat {
    step(text, i) + space_run(text, i + step(text, i))
}

/// Whether `c` is one of the ten decimal digits.
pub open spec fn is_digit(c: char) -> bool {
    '0' <= c <= '9'
}

/// Length of the run of digits and decimal points that starts at `i`.
pub open spec fn number_run(text: Seq<char>, i: nat) -> nat
    decreases remaining(text, i),
{
    if i < text.len() && (is_digit(text[i as int]) || text[i as int] == DOT_CHAR) {
        1 + number_run(text, i + 1)
    } else {
        0
    }
}

/// Whether the character at `i` ends a string: a quote that no backslash stands before.
pub open spec fn closes_string(text: Seq<char>, i: nat) -> bool {
    0 < i < text.len() && text[i as int] == STRING_END_CHAR && text[i - 1] != SKIP_CHAR
}

/// Number of characters from `i` up to the quote that ends the string, or up to the end of the
/// text where none does.
pub open spec fn string_run(text: Seq<char>, i: nat) -> nat
    decreases remaining(text, i),
{
    if i < text.len() && !closes_string(text, i) {
        1 + string_run(text, i + 1)
    } else {
        0
    }
}

/// The number production at `i`: a digit, then every digit or decimal point that follows. The
/// cursor ends on the last character of the literal.
#[verifier::opaque]
pub open spec fn number_at(text: Seq<char>, base: nat, i: nat) -> Parsed<NumberView> {
    if i < text.len() && is_digit(text[i as int]) {
        let n = number_run(text, i + 1);
        Parsed {
            outcome: Ok(
                NumberView {
                    value: text.subrange(i as int, (i + 1 + n) as int),
                    start: position_at(text, base, i),
                    end: position_at(text, base, i + n),
                },
            ),
            moved: n,
        }
    } else {
        Parsed { outcome: Err(ParserError::UnexpectedEndError), moved: 0 }
    }
}

/// The string production at `i`: a quote, then everything up to the first quote that no
/// backslash stands before. The cursor ends on that closing quote, or past the end of a text
/// that has none.
#[verifier::opaque]
pub open spec fn string_at(text: Seq<char>, base: nat, i: nat) -> Parsed<StringView> {
    if i >= text.len() {
        Parsed { outcome: Err(ParserError::UnexpectedEndError), moved: 0 }
    } else if text[i as int] != STRING_START_CHAR {
        Parsed {
            outcome: Err(
                ParserError::UnexpectedCharacterError(text[i as int], position_at(text, base, i) as usize),
            ),
            moved: 0,
        }
    } else {
        let n = string_run(text, i + 1);
        let close = i + 1 + n;
        if close < text.len() {
            let start = position_at(text, base, i + 1);
            Parsed {
                outcome: Ok(
                    StringView {
                        value: text.subrange((i + 1) as int, close as int),
                        start,
                        end: if n == 0 {
                            start
                        } else {
                            (position_at(text, base, close) - 1) as nat
                        },
                    },
                ),
                moved: 1 + n,
            }
        } else {
            Parsed { outcome: Err(ParserError::UnexpectedEndError), moved: 1 + n }
        }
    }
}

/// What follows a value whose last character is at `k`: the cursor moves onto a comma, or
/// onto the first character after a run of spaces; the end of the text is a failure; before
/// anything else the cursor stays where it is.
///
/// Nothing is refused here for not being a separator. The character the cursor is left on is
/// passed over when the container looks for its next element, so a closing bracket or brace
/// right after a value ends the container, a value right after another is read as the next
/// element, and what stands after a run of spaces is used up whatever it is.
pub open spec fn separator_at(text: Seq<char>, k: nat) -> Parsed<()> {
    if k + 1 >= text.len() {
        Parsed { outcome: Err(ParserError::UnexpectedEndError), moved: 0 }
    } else if text[(k + 1) as int] == COMMA_CHAR {
        Parsed { outcome: Ok(()), moved: 1 }
    } else if text[(k + 1) as int] == SPACE_CHAR {
        Parsed { outcome: Ok(()), moved: 1 + space_run(text, k + 1) }
    } else {
        Parsed { outcome: Ok(()), moved: 0 }
    }
}

/// The value production at `i`, chosen by the character there.
#[verifier::opaque]
pub open spec fn value_at(text: Seq<char>, base: nat, i: nat) -> Parsed<TokenView>
    decreases remaining(text, i), 1nat,
{
    if i >= text.len() {
        Parsed { outcome: Err(ParserError::UnexpectedEndError), moved: 0 }
    } else if is_digit(text[i as int]) {
        let number = number_at(text, base, i);
        Parsed {
            outcome: match number.outcome {
                Ok(n) => Ok(TokenView::Number(n)),
                Err(e) => Err(e),
            },
            moved: number.moved,
        }
    } else if text[i as int] == STRING_START_CHAR {
        let string = string_at(text, base, i);
        Parsed {
            outcome: match string.outcome {
                Ok(s) => Ok(TokenView::String(s)),
                Err(e) => Err(e),
            },
            moved: string.moved,
        }
    } else if text[i as int] == OBJECT_START_CHAR {
        let entries = entries_at(text, base, i);
        Parsed {
            outcome: match entries.outcome {
                Ok(values) => Ok(
                    TokenView::Object(
                        ObjectView {
                            values,
                            start: position_at(text, base, i),
                            end: position_at(text, base, i + entries.moved),
                        },
                    ),
                ),
                Err(e) => Err(e),
            },
            moved: entries.moved,
        }
    } else if text[i as int] == ARRAY_START_CHAR {
        let items = items_at(text, base, i);
        Parsed {
            outcome: match items.outcome {
                Ok(values) => Ok(
                    TokenView::Array(
                        ArrayView {
                            values,
                            start: position_at(text, base, i),
                            end: position_at(text, base, i + items.moved),
                        },
                    ),
                ),
                Err(e) => Err(e),
            },
            moved: items.moved,
        }
    } else {
        Parsed {
            outcome: Err(
                ParserError::UnexpectedCharacterError(text[i as int], position_at(text, base, i) as usize),
            ),
            moved: 0,
        }
    }
}

/// The elements of an array, read from a cursor at `i` that stands on the opening bracket or
/// where the separator after the previous element left it. The cursor ends on the closing
/// bracket.
#[verifier::opaque]
pub open spec fn items_at(text: Seq<char>, base: nat, i: nat) -> Parsed<Seq<TokenView>>
    decreases remaining(text, i), 0nat,
{
    let at = i + entry(text, i);
    if at >= text.len() {
        Parsed { outcome: Err(ParserError::UnexpectedEndError), moved: entry(text, i) }
    } else if text[at as int] == ARRAY_END_CHAR {
        Parsed { outcome: Ok(Seq::empty()), moved: entry(text, i) }
    } else {
        let value = value_at(text, base, at);
        match value.outcome {
            Err(e) => Parsed { outcome: Err(e), moved: entry(text, i) + value.moved },
            Ok(first) => {
                let rest = items_after(text, base, at + value.moved);
                Parsed {
                    outcome: match rest.outcome {
                        Ok(others) => Ok(seq![first] + others),
                        Err(e) => Err(e),
                    },
                    moved: entry(text, i) + value.moved + rest.moved,
                }
            },
        }
    }
}

/// The elements of an array that follow one whose last character is at `last`.
#[verifier::opaque]
pub open spec fn items_after(text: Seq<char>, base: nat, last: nat) -> Parsed<Seq<TokenView>>
    decreases remaining(text, last), 1nat,
{
    let separator = separator_at(text, last);
    match separator.outcome {
        Err(e) => Parsed { outcome: Err(e), moved: separator.moved },
        Ok(_) => {
            let rest = items_at(text, base, last + separator.moved);
            Parsed { outcome: rest.outcome, moved: separator.moved + rest.moved }
        },
    }
}

/// The key of an object entry and the colon after it, read from a cursor at `at`: a string,
/// spaces, a colon, spaces. The cursor ends on the first character of the value.
#[verifier::opaque]
pub open spec fn key_at(text: Seq<char>, base: nat, at: nat) -> Parsed<Seq<char>> {
    let key = string_at(text, base, at);
    match key.outcome {
        Err(e) => Parsed { outcome: Err(e), moved: key.moved },
        Ok(name) => {
            let close = at + key.moved;
            let colon = close + entry(text, close);
            if colon >= text.len() {
                Parsed {
                    outcome: Err(ParserError::UnexpectedEndError),
                    moved: key.moved + entry(text, close),
                }
            } else if text[colon as int] != OBJECT_PAIR_SEPARATOR_CHAR {
                Parsed {
                    outcome: Err(
                        ParserError::UnexpectedCharacterError(
                            text[colon as int],
                            position_at(text, base, colon) as usize,
                        ),
                    ),
                    moved: key.moved + entry(text, close),
                }
            } else {
                Parsed {
                    outcome: Ok(name.value),
                    moved: key.moved + entry(text, close) + 1 + space_run(text, colon + 1),
                }
            }
        },
    }
}

/// The step to the next entry of an object, from a cursor at `i` that stands on the opening
/// brace or where the separator after the previous entry left it: no key where the closing
/// brace comes next, else the key of the entry, with the cursor on the first character of its
/// value.
#[verifier::opaque]
pub open spec fn next_key_at(text: Seq<char>, base: nat, i: nat) -> Parsed<Option<Seq<char>>> {
    let at = i + entry(text, i);
    if at < text.len() && text[at as int] == OBJECT_END_CHAR {
        Parsed { outcome: Ok(None), moved: entry(text, i) }
    } else {
        let key = key_at(text, base, at);
        Parsed {
            outcome: match key.outcome {
                Ok(name) => Ok(Some(name)),
                Err(e) => Err(e),
            },
            moved: entry(text, i) + key.moved,
        }
    }
}

/// The entries of an object, read from a cursor at `i` that stands on the opening brace or
/// where the separator after the previous entry left it. The cursor ends on the closing brace.
#[verifier::opaque]
pub open spec fn entries_at(text: Seq<char>, base: nat, i: nat) -> Parsed<Seq<PairView>>
    decreases remaining(text, i), 0nat,
    via entries_at_decreases
{
    let key = next_key_at(text, base, i);
    match key.outcome {
        Err(e) => Parsed { outcome: Err(e), moved: key.moved },
        Ok(None) => Parsed { outcome: Ok(Seq::empty()), moved: key.moved },
        Ok(Some(name)) => {
            let value = value_at(text, base, i + key.moved);
            match value.outcome {
                Err(e) => Parsed { outcome: Err(e), moved: key.moved + value.moved },
                Ok(held) => {
                    let rest = entries_after(text, base, i + key.moved + value.moved);
                    Parsed {
                        outcome: match rest.outcome {
                            Ok(others) => Ok(seq![PairView { key: name, value: held }] + others),
                            Err(e) => Err(e),
                        },
                        moved: key.moved + value.moved + rest.moved,
                    }
                },
            }
        },
    }
}

/// Reading a key moves the cursor forward, so the value after it is nearer to the end.
#[via_fn]
proof fn entries_at_decreases(text: Seq<char>, base: nat, i: nat) {
    reveal(next_key_at);
    reveal(key_at);
    reveal(string_at);
}

/// The entries of an object that follow one whose value ends at `last`.
#[verifier::opaque]
pub open spec fn entries_after(text: Seq<char>, base: nat, last: nat) -> Parsed<Seq<PairView>>
    decreases remaining(text, last), 1nat,
{
    let separator = separator_at(text, last);
    match separator.outcome {
        Err(e) => Parsed { outcome: Err(e), moved: separator.moved },
        Ok(_) => {
            let rest = entries_at(text, base, last + separator.moved);
            Parsed { outcome: rest.outcome, moved: separator.moved + rest.moved }
        },
    }
}

/// The character under the cursor, or the null character at the end of the text.
pub open spec fn char_or_null(text: Seq<char>, i: nat) -> char {
    if i < text.len() {
        text[i as int]
    } else {
        '\0'
    }
}

/// The object production at `i`, which must stand on an opening brace.
pub open spec fn object_at(text: Seq<char>, base: nat, i: nat) -> Parsed<ObjectView> {
    if i < text.len() && text[i as int] == OBJECT_START_CHAR {
        let entries = entries_at(text, base, i);
        Parsed {
            outcome: match entries.outcome {
                Ok(values) => Ok(
                    ObjectView {
                        values,
                        start: position_at(text, base, i),
                        end: position_at(text, base, i + entries.moved),
                    },
                ),
                Err(e) => Err(e),
            },
            moved: entries.moved,
        }
    } else {
        Parsed {
            outcome: Err(
                ParserError::UnexpectedCharacterError(
                    char_or_null(text, i),
                    position_at(text, base, i) as usize,
                ),
            ),
            moved: 0,
        }
    }
}

/// The array production at `i`, which must stand on an opening bracket.
pub open spec fn array_at(text: Seq<char>, base: nat, i: nat) -> Parsed<ArrayView> {
    if i < text.len() && text[i as int] == ARRAY_START_CHAR {
        let items = items_at(text, base, i);
        Parsed {
            outcome: match items.outcome {
                Ok(values) => Ok(
                    ArrayView {
                        values,
                        start: position_at(text, base, i),
                        end: position_at(text, base, i + items.moved),
                    },
                ),
                Err(e) => Err(e),
            },
            moved: items.moved,
        }
    } else {
        Parsed {
            outcome: Err(
                ParserError::UnexpectedCharacterError(
                    char_or_null(text, i),
                    position_at(text, base, i) as usize,
                ),
            ),
            moved: 0,
        }
    }
}

/// What a whole text parses to: the white space at its two ends is set aside and the value
/// production is applied at the first character that is left. Byte offsets count from the
/// start of the whole text, white space included.
pub open spec fn document(input: Seq<char>) -> Result<TokenView, ParserError> {
    value_at(trimmed(input), leading_bytes(input), 0).outcome
}

/// A token made of what a production yields.
pub open spec fn wrapped<T>(p: Parsed<T>, wrap: spec_fn(T) -> TokenView) -> Parsed<TokenView> {
    Parsed {
        outcome: match p.outcome {
            Ok(t) => Ok(wrap(t)),
            Err(e) => Err(e),
        },
        moved: p.moved,
    }
}

/// The value production chooses by the character under the cursor alone: a digit starts a
/// number, a quote a string, a brace an object, a bracket an array; the end of the text and
/// every other character are failures that move nothing.
pub proof fn lemma_value_dispatch(text: Seq<char>, base: nat, i: nat)
    ensures
        i >= text.len() ==> value_at(text, base, i) == (Parsed::<TokenView> {
            outcome: Err(ParserError::UnexpectedEndError),
            moved: 0,
        }),
        i < text.len() && is_digit(text[i as int]) ==> value_at(text, base, i) == wrapped(
            number_at(text, base, i),
            |n: NumberView| TokenView::Number(n),
        ),
        i < text.len() && text[i as int] == STRING_START_CHAR ==> value_at(text, base, i) == wrapped(
            string_at(text, base, i),
            |s: StringView| TokenView::String(s),
        ),
        i < text.len() && text[i as int] == OBJECT_START_CHAR ==> value_at(text, base, i) == wrapped(
            object_at(text, base, i),
            |o: ObjectView| TokenView::Object(o),
        ),
        i < text.len() && text[i as int] == ARRAY_START_CHAR ==> value_at(text, base, i) == wrapped(
            array_at(text, base, i),
            |a: ArrayView| TokenView::Array(a),
        ),
        i < text.len() && !is_digit(text[i as int]) && text[i as int] != STRING_START_CHAR
            && text[i as int] != OBJECT_START_CHAR && text[i as int] != ARRAY_START_CHAR
            ==> value_at(text, base, i) == (Parsed::<TokenView> {
            outcome: Err(
                ParserError::UnexpectedCharacterError(text[i as int], position_at(text, base, i) as usize),
            ),
            moved: 0,
        }),
{
    reveal(value_at);
    reveal(items_at);
    reveal(items_after);
    reveal(entries_at);
    reveal(entries_after);
}

} // verus!
