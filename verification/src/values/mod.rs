use vstd::prelude::*;

pub mod constants;
pub mod convert;
pub mod duplicate;

verus! {

/// A number literal, kept as the text that was matched.
#[derive(Debug)]
pub struct NumberToken {
    pub value: String,
    pub start: usize,
    pub end: usize,
}

/// A string literal: the text between its quotes, escapes left as written.
#[derive(Debug)]
pub struct StringToken {
    pub value: String,
    pub start: usize,
    pub end: usize,
}

/// One `key: value` entry of an object.
#[derive(Debug)]
pub struct ObjectTokenPair {
    pub key: String,
    pub value: Token,
}

/// An object: its entries in source order, duplicates kept.
#[derive(Debug)]
pub struct ObjectToken {
    pub values: Vec<ObjectTokenPair>,
    pub start: usize,
    pub end: usize,
}

/// An array: its elements in source order.
#[derive(Debug)]
pub struct ArrayToken {
    pub values: Vec<Token>,
    pub start: usize,
    pub end: usize,
}

/// Any value the grammar can produce.
#[derive(Debug)]
pub enum Token {
    Number(NumberToken),
    String(StringToken),
    Object(ObjectToken),
    Array(ArrayToken),
}

/// Mathematical value of a [`NumberToken`].
pub struct NumberView {
    pub value: Seq<char>,
    pub start: nat,
    pub end: nat,
}

/// Mathematical value of a [`StringToken`].
pub struct StringView {
    pub value: Seq<char>,
    pub start: nat,
    pub end: nat,
}

/// Mathematical value of an [`ObjectTokenPair`].
pub struct PairView {
    pub key: Seq<char>,
    pub value: TokenView,
}

/// Mathematical value of an [`ObjectToken`].
pub struct ObjectView {
    pub values: Seq<PairView>,
    pub start: nat,
    pub end: nat,
}

/// Mathematical value of an [`ArrayToken`].
pub struct ArrayView {
    pub values: Seq<TokenView>,
    pub start: nat,
    pub end: nat,
}

/// Mathematical value of a [`Token`]: the same tree over sequences and naturals.
pub enum TokenView {
    Number(NumberView),
    String(StringView),
    Object(ObjectView),
    Array(ArrayView),
}

/// The tree that `t` stands for.
pub open spec fn token_view(t: Token) -> TokenView
    decreases t,
{
    match t {
        Token::Number(n) => TokenView::Number(n@),
        Token::String(s) => TokenView::String(s@),
        Token::Object(o) => TokenView::Object(
            ObjectView {
                values: pairs_view(o.values@),
                start: o.start as nat,
                end: o.end as nat,
            },
        ),
        Token::Array(a) => TokenView::Array(
            ArrayView {
                values: tokens_view(a.values@),
                start: a.start as nat,
                end: a.end as nat,
            },
        ),
    }
}

/// The trees of `ts`, element by element.
pub open spec fn tokens_view(ts: Seq<Token>) -> Seq<TokenView>
    decreases ts,
{
    if ts.len() == 0 {
        Seq::empty()
    } else {
        tokens_view(ts.drop_last()).push(token_view(ts.last()))
    }
}

/// The entries of `ps`, element by element.
pub open spec fn pairs_view(ps: Seq<ObjectTokenPair>) -> Seq<PairView>
    decreases ps,
{
    if ps.len() == 0 {
        Seq::empty()
    } else {
        pairs_view(ps.drop_last()).push(
            PairView { key: ps.last().key@, value: token_view(ps.last().value) },
        )
    }
}

impl View for NumberToken {
    type V = NumberView;

    open spec fn view(&self) -> NumberView {
        NumberView { value: self.value@, start: self.start as nat, end: self.end as nat }
    }
}

impl View for StringToken {
    type V = StringView;

    open spec fn view(&self) -> StringView {
        StringView { value: self.value@, start: self.start as nat, end: self.end as nat }
    }
}

impl View for ObjectTokenPair {
    type V = PairView;

    open spec fn view(&self) -> PairView {
        PairView { key: self.key@, value: token_view(self.value) }
    }
}

impl View for ObjectToken {
    type V = ObjectView;

    open spec fn view(&self) -> ObjectView {
        ObjectView {
            values: pairs_view(self.values@),
            start: self.start as nat,
            end: self.end as nat,
        }
    }
}

impl View for ArrayToken {
    type V = ArrayView;

    open spec fn view(&self) -> ArrayView {
        ArrayView {
            values: tokens_view(self.values@),
            start: self.start as nat,
            end: self.end as nat,
        }
    }
}

impl View for Token {
    type V = TokenView;

    open spec fn view(&self) -> TokenView {
        token_view(*self)
    }
}

/// `tokens_view` keeps length and order.
pub proof fn lemma_tokens_view(ts: Seq<Token>)
    ensures
        tokens_view(ts).len() == ts.len(),
        forall|i: int| 0 <= i < ts.len() ==> #[trigger] tokens_view(ts)[i] == token_view(ts[i]),
    decreases ts.len(),
{
    if ts.len() > 0 {
        lemma_tokens_view(ts.drop_last());
    }
}

/// `pairs_view` keeps length and order.
pub proof fn lemma_pairs_view(ps: Seq<ObjectTokenPair>)
    ensures
        pairs_view(ps).len() == ps.len(),
        forall|i: int| 0 <= i < ps.len() ==> #[trigger] pairs_view(ps)[i] == ps[i]@,
    decreases ps.len(),
{
    if ps.len() > 0 {
        lemma_pairs_view(ps.drop_last());
    }
}

/// Appending an element appends its tree.
pub proof fn lemma_tokens_view_push(ts: Seq<Token>, t: Token)
    ensures
        tokens_view(ts.push(t)) == tokens_view(ts).push(token_view(t)),
{
    assert(ts.push(t).drop_last() =~= ts);
}

/// Appending an entry appends its view.
pub proof fn lemma_pairs_view_push(ps: Seq<ObjectTokenPair>, p: ObjectTokenPair)
    ensures
        pairs_view(ps.push(p)) == pairs_view(ps).push(p@),
{
    assert(ps.push(p).drop_last() =~= ps);
}

impl NumberToken {
    /// Number of bytes the literal spans, both ends included.
    pub fn length(&self) -> (len: usize)
        requires
            self.start <= self.end,
            self.end - self.start < usize::MAX,
        ensures
            len == self.end - self.start + 1,
    {
        self.end - self.start + 1
    }
}

impl StringToken {
    /// Number of characters of the content.
    pub fn length(&self) -> (len: usize)
        ensures
            len == self.value@.len(),
    {
        self.value.as_str().unicode_len()
    }
}

} // verus!
