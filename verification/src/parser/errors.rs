use vstd::prelude::*;
use vstd::string::StringExecFns;

verus! {

/// ParserError represents all the possible errors that can be gotten
/// from parsing a JSON string.
#[derive(Debug, Clone, Copy, PartialEq, Eq, Structural)]
pub enum ParserError {
    UnexpectedCharacterError(char, usize),
    UnexpectedNumberError(usize),
    UnexpectedEndError,
}

/// The character that writes the digit `d`.
pub open spec fn digit_char(d: nat) -> char {
    ('0' as u8 + d) as char
}

/// `n` written in base ten, without leading zeros.
pub open spec fn decimal(n: nat) -> Seq<char>
    decreases n,
{
    if n < 10 {
        seq![digit_char(n)]
    } else {
        decimal(n / 10).push(digit_char(n % 10))
    }
}

/// The text that describes `e`.
pub open spec fn message(e: ParserError) -> Seq<char> {
    match e {
        ParserError::UnexpectedCharacterError(c, p) => "Unexpected character "@.push(c)
            + " at position "@ + decimal(p as nat),
        ParserError::UnexpectedNumberError(p) => "Unexpected number at position "@ + decimal(
            p as nat,
        ),
        ParserError::UnexpectedEndError => "Unexpected end of JSON input"@,
    }
}

fn digit_of(d: usize) -> (c: char)
    requires
        d < 10,
    ensures
        c == digit_char(d as nat),
{
    if d == 0 {
        '0'
    } else if d == 1 {
        '1'
    } else if d == 2 {
        '2'
    } else if d == 3 {
        '3'
    } else if d == 4 {
        '4'
    } else if d == 5 {
        '5'
    } else if d == 6 {
        '6'
    } else if d == 7 {
        '7'
    } else if d == 8 {
        '8'
    } else {
        '9'
    }
}

/// Appends `n` in base ten to `out`.
fn push_decimal(out: &mut String, n: usize)
    ensures
        final(out)@ == old(out)@ + decimal(n as nat),
    decreases n,
{
    if n >= 10 {
        push_decimal(out, n / 10);
    }
    out.push(digit_of(n % 10));
    proof {
        if n >= 10 {
            assert(old(out)@ + decimal(n as nat) =~= (old(out)@ + decimal((n / 10) as nat)).push(
                digit_char((n % 10) as nat),
            ));
        } else {
            assert(old(out)@ + decimal(n as nat) =~= old(out)@.push(digit_char(n as nat)));
        }
    }
}

impl ParserError {
    /// Renders the error as a sentence, with the character and byte position where it has them.
    pub fn to_string(&self) -> (text: String)
        ensures
            text@ == message(*self),
    {
        match *self {
            ParserError::UnexpectedCharacterError(c, p) => {
                let mut text = String::from_str("Unexpected character ");
                text.push(c);
                text.append(" at position ");
                push_decimal(&mut text, p);
                text
            },
            ParserError::UnexpectedNumberError(p) => {
                let mut text = String::from_str("Unexpected number at position ");
                push_decimal(&mut text, p);
                text
            },
            ParserError::UnexpectedEndError => String::from_str("Unexpected end of JSON input"),
        }
    }
}

} // verus!
