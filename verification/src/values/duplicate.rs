use super::ArrayToken;
use super::NumberToken;
use super::ObjectToken;
use super::ObjectTokenPair;
use super::StringToken;
use super::Token;
use super::lemma_pairs_view_push;
use super::lemma_tokens_view_push;
use super::pairs_view;
use super::tokens_view;
use vstd::prelude::*;

verus! {

/// A deep copy of `t`.
pub fn copy_token(t: &Token) -> (r: Token)
    ensures
        r@ == t@,
    decreases t,
{
    match t {
        Token::Number(n) => Token::Number(n.clone()),
        Token::String(s) => Token::String(s.clone()),
        Token::Object(o) => {
            let values = copy_pairs(&o.values);
            Token::Object(ObjectToken { values, start: o.start, end: o.end })
        },
        Token::Array(a) => {
            let values = copy_tokens(&a.values);
            Token::Array(ArrayToken { values, start: a.start, end: a.end })
        },
    }
}

/// A deep copy of each element of `ts`, in order.
pub fn copy_tokens(ts: &Vec<Token>) -> (r: Vec<Token>)
    ensures
        tokens_view(r@) == tokens_view(ts@),
    decreases ts,
{
    let mut values: Vec<Token> = Vec::new();
    let mut i: usize = 0;
    while i < ts.len()
        invariant
            i <= ts.len(),
            tokens_view(values@) == tokens_view(ts@.take(i as int)),
        decreases ts.len() - i,
    {
        assert(decreases_to!(ts => ts@[i as int]));
        let copied = copy_token(&ts[i]);
        proof {
            lemma_tokens_view_push(values@, copied);
            lemma_tokens_view_push(ts@.take(i as int), ts@[i as int]);
            assert(ts@.take(i as int).push(ts@[i as int]) =~= ts@.take(i + 1));
        }
        values.push(copied);
        i = i + 1;
    }
    assert(ts@.take(i as int) =~= ts@);
    values
}

/// A deep copy of each entry of `ps`, in order.
pub fn copy_pairs(ps: &Vec<ObjectTokenPair>) -> (r: Vec<ObjectTokenPair>)
    ensures
        pairs_view(r@) == pairs_view(ps@),
    decreases ps,
{
    let mut values: Vec<ObjectTokenPair> = Vec::new();
    let mut i: usize = 0;
    while i < ps.len()
        invariant
            i <= ps.len(),
            pairs_view(values@) == pairs_view(ps@.take(i as int)),
        decreases ps.len() - i,
    {
        let pair = &ps[i];
        assert(decreases_to!(ps => ps@[i as int].value));
        let value = copy_token(&pair.value);
        let copied = ObjectTokenPair { key: pair.key.clone(), value };
        proof {
            lemma_pairs_view_push(values@, copied);
            lemma_pairs_view_push(ps@.take(i as int), *pair);
            assert(ps@.take(i as int).push(*pair) =~= ps@.take(i + 1));
        }
        values.push(copied);
        i = i + 1;
    }
    assert(ps@.take(i as int) =~= ps@);
    values
}

impl Clone for NumberToken {
    fn clone(&self) -> (r: Self)
        ensures
            r@ == self@,
    {
        NumberToken { value: self.value.clone(), start: self.start, end: self.end }
    }
}

impl Clone for StringToken {
    fn clone(&self) -> (r: Self)
        ensures
            r@ == self@,
    {
        StringToken { value: self.value.clone(), start: self.start, end: self.end }
    }
}

impl Clone for ObjectTokenPair {
    fn clone(&self) -> (r: Self)
        ensures
            r@ == self@,
    {
        ObjectTokenPair { key: self.key.clone(), value: copy_token(&self.value) }
    }
}

impl Clone for ObjectToken {
    fn clone(&self) -> (r: Self)
        ensures
            r@ == self@,
    {
        ObjectToken { values: copy_pairs(&self.values), start: self.start, end: self.end }
    }
}

impl Clone for ArrayToken {
    fn clone(&self) -> (r: Self)
        ensures
            r@ == self@,
    {
        ArrayToken { values: copy_tokens(&self.values), start: self.start, end: self.end }
    }
}

impl Clone for Token {
    fn clone(&self) -> (r: Self)
        ensures
            r@ == self@,
    {
        copy_token(self)
    }
}

} // verus!
