use super::ArrayToken;
use super::NumberToken;
use super::ObjectToken;
use super::StringToken;
use super::Token;
use vstd::prelude::*;
use vstd::std_specs::convert::FromSpec;
use vstd::std_specs::convert::TryFromSpec;

verus! {

impl From<NumberToken> for Token {
    fn from(token: NumberToken) -> (t: Token) {
        Token::Number(token)
    }
}

impl vstd::std_specs::convert::FromSpecImpl<NumberToken> for Token {
    open spec fn obeys_from_spec() -> bool {
        true
    }

    open spec fn from_spec(token: NumberToken) -> Token {
        Token::Number(token)
    }
}

impl TryFrom<Token> for NumberToken {
    type Error = &'static str;

    fn try_from(t: Token) -> (r: Result<Self, Self::Error>) {
        match t {
            Token::Number(token_value) => Ok(token_value),
            _ => Err("Cannot convert Token into NumberToken"),
        }
    }
}

impl vstd::std_specs::convert::TryFromSpecImpl<Token> for NumberToken {
    open spec fn obeys_try_from_spec() -> bool {
        true
    }

    open spec fn try_from_spec(t: Token) -> Result<Self, Self::Error> {
        match t {
            Token::Number(token_value) => Ok(token_value),
            _ => Err("Cannot convert Token into NumberToken"),
        }
    }
}

impl From<StringToken> for Token {
    fn from(token: StringToken) -> (t: Token) {
        Token::String(token)
    }
}

impl vstd::std_specs::convert::FromSpecImpl<StringToken> for Token {
    open spec fn obeys_from_spec() -> bool {
        true
    }

    open spec fn from_spec(token: StringToken) -> Token {
        Token::String(token)
    }
}

impl TryFrom<Token> for StringToken {
    type Error = &'static str;

    fn try_from(t: Token) -> (r: Result<Self, Self::Error>) {
        match t {
            Token::String(token_value) => Ok(token_value),
            _ => Err("Cannot convert Token into StringToken"),
        }
    }
}

impl vstd::std_specs::convert::TryFromSpecImpl<Token> for StringToken {
    open spec fn obeys_try_from_spec() -> bool {
        true
    }

    open spec fn try_from_spec(t: Token) -> Result<Self, Self::Error> {
        match t {
            Token::String(token_value) => Ok(token_value),
            _ => Err("Cannot convert Token into StringToken"),
        }
    }
}

impl From<ObjectToken> for Token {
    fn from(token: ObjectToken) -> (t: Token) {
        Token::Object(token)
    }
}

impl vstd::std_specs::convert::FromSpecImpl<ObjectToken> for Token {
    open spec fn obeys_from_spec() -> bool {
        true
    }

    open spec fn from_spec(token: ObjectToken) -> Token {
        Token::Object(token)
    }
}

impl TryFrom<Token> for ObjectToken {
    type Error = &'static str;

    fn try_from(t: Token) -> (r: Result<Self, Self::Error>) {
        match t {
            Token::Object(token_value) => Ok(token_value),
            _ => Err("Cannot convert Token into ObjectToken"),
        }
    }
}

impl vstd::std_specs::convert::TryFromSpecImpl<Token> for ObjectToken {
    open spec fn obeys_try_from_spec() -> bool {
        true
    }

    open spec fn try_from_spec(t: Token) -> Result<Self, Self::Error> {
        match t {
            Token::Object(token_value) => Ok(token_value),
            _ => Err("Cannot convert Token into ObjectToken"),
        }
    }
}

impl From<ArrayToken> for Token {
    fn from(token: ArrayToken) -> (t: Token) {
        Token::Array(token)
    }
}

impl vstd::std_specs::convert::FromSpecImpl<ArrayToken> for Token {
    open spec fn obeys_from_spec() -> bool {
        true
    }

    open spec fn from_spec(token: ArrayToken) -> Token {
        Token::Array(token)
    }
}

impl TryFrom<Token> for ArrayToken {
    type Error = &'static str;

    fn try_from(t: Token) -> (r: Result<Self, Self::Error>) {
        match t {
            Token::Array(token_value) => Ok(token_value),
            _ => Err("Cannot convert Token into ArrayToken"),
        }
    }
}

impl vstd::std_specs::convert::TryFromSpecImpl<Token> for ArrayToken {
    open spec fn obeys_try_from_spec() -> bool {
        true
    }

    open spec fn try_from_spec(t: Token) -> Result<Self, Self::Error> {
        match t {
            Token::Array(token_value) => Ok(token_value),
            _ => Err("Cannot convert Token into ArrayToken"),
        }
    }
}

/// A token made from a number narrows back to that same number, and to no other kind: each of
/// the other three conversions fails with its own message.
pub proof fn lemma_number_round_trip(token: NumberToken)
    ensures
        <NumberToken as TryFromSpec<Token>>::try_from_spec(
            <Token as FromSpec<NumberToken>>::from_spec(token),
        ) == Ok::<NumberToken, &'static str>(token),
        <StringToken as TryFromSpec<Token>>::try_from_spec(
            <Token as FromSpec<NumberToken>>::from_spec(token),
        ) == Err::<StringToken, &'static str>("Cannot convert Token into StringToken"),
        <ObjectToken as TryFromSpec<Token>>::try_from_spec(
            <Token as FromSpec<NumberToken>>::from_spec(token),
        ) == Err::<ObjectToken, &'static str>("Cannot convert Token into ObjectToken"),
        <ArrayToken as TryFromSpec<Token>>::try_from_spec(
            <Token as FromSpec<NumberToken>>::from_spec(token),
        ) == Err::<ArrayToken, &'static str>("Cannot convert Token into ArrayToken"),
{
}

/// A token made from a string narrows back to that same string, and to no other kind: each of
/// the other three conversions fails with its own message.
pub proof fn lemma_string_round_trip(token: StringToken)
    ensures
        <NumberToken as TryFromSpec<Token>>::try_from_spec(
            <Token as FromSpec<StringToken>>::from_spec(token),
        ) == Err::<NumberToken, &'static str>("Cannot convert Token into NumberToken"),
        <StringToken as TryFromSpec<Token>>::try_from_spec(
            <Token as FromSpec<StringToken>>::from_spec(token),
        ) == Ok::<StringToken, &'static str>(token),
        <ObjectToken as TryFromSpec<Token>>::try_from_spec(
            <Token as FromSpec<StringToken>>::from_spec(token),
        ) == Err::<ObjectToken, &'static str>("Cannot convert Token into ObjectToken"),
        <ArrayToken as TryFromSpec<Token>>::try_from_spec(
            <Token as FromSpec<StringToken>>::from_spec(token),
        ) == Err::<ArrayToken, &'static str>("Cannot convert Token into ArrayToken"),
{
}

/// A token made from an object narrows back to that same object, and to no other kind: each of
/// the other three conversions fails with its own message.
pub proof fn lemma_object_round_trip(token: ObjectToken)
    ensures
        <NumberToken as TryFromSpec<Token>>::try_from_spec(
            <Token as FromSpec<ObjectToken>>::from_spec(token),
        ) == Err::<NumberToken, &'static str>("Cannot convert Token into NumberToken"),
        <StringToken as TryFromSpec<Token>>::try_from_spec(
            <Token as FromSpec<ObjectToken>>::from_spec(token),
        ) == Err::<StringToken, &'static str>("Cannot convert Token into StringToken"),
        <ObjectToken as TryFromSpec<Token>>::try_from_spec(
            <Token as FromSpec<ObjectToken>>::from_spec(token),
        ) == Ok::<ObjectToken, &'static str>(token),
        <ArrayToken as TryFromSpec<Token>>::try_from_spec(
            <Token as FromSpec<ObjectToken>>::from_spec(token),
        ) == Err::<ArrayToken, &'static str>("Cannot convert Token into ArrayToken"),
{
}

/// A token made from an array narrows back to that same array, and to no other kind: each of
/// the other three conversions fails with its own message.
pub proof fn lemma_array_round_trip(token: ArrayToken)
    ensures
        <NumberToken as TryFromSpec<Token>>::try_from_spec(
            <Token as FromSpec<ArrayToken>>::from_spec(token),
        ) == Err::<NumberToken, &'static str>("Cannot convert Token into NumberToken"),
        <StringToken as TryFromSpec<Token>>::try_from_spec(
            <Token as FromSpec<ArrayToken>>::from_spec(token),
        ) == Err::<StringToken, &'static str>("Cannot convert Token into StringToken"),
        <ObjectToken as TryFromSpec<Token>>::try_from_spec(
            <Token as FromSpec<ArrayToken>>::from_spec(token),
        ) == Err::<ObjectToken, &'static str>("Cannot convert Token into ObjectToken"),
        <ArrayToken as TryFromSpec<Token>>::try_from_spec(
            <Token as FromSpec<ArrayToken>>::from_spec(token),
        ) == Ok::<ArrayToken, &'static str>(token),
{
}

} // verus!
