use super::grammar::entries_after;
use super::grammar::entries_at;
use super::grammar::entry;
use super::grammar::is_digit;
use super::grammar::items_after;
use super::grammar::items_at;
use super::grammar::key_at;
use super::grammar::next_key_at;
use super::grammar::number_at;
use super::grammar::number_run;
use super::grammar::position_at;
use super::grammar::remaining;
use super::grammar::separator_at;
use super::grammar::string_at;
use super::grammar::string_run;
use super::grammar::value_at;
use crate::text::byte_len;
use crate::text::lemma_byte_len_push;
use crate::text::lemma_byte_len_take;
use crate::values::PairView;
use crate::values::TokenView;
use crate::values::constants::ARRAY_END_CHAR;
use crate::values::constants::ARRAY_START_CHAR;
use crate::values::constants::DOT_CHAR;
use crate::values::constants::OBJECT_START_CHAR;
use crate::values::constants::STRING_START_CHAR;
use vstd::prelude::*;

verus! {

/// Every node of `t` spans bytes of a text of `limit` bytes: its first offset is not after
/// its last, and its last lies in the text.
pub open spec fn spans_within(t: TokenView, limit: nat) -> bool
    decreases t,
{
    match t {
        TokenView::Number(n) => n.start <= n.end < limit,
        TokenView::String(s) => s.start <= s.end < limit,
        TokenView::Object(o) => o.start <= o.end < limit && forall|i: int|
            0 <= i < o.values.len() ==> spans_within((#[trigger] o.values[i]).value, limit),
        TokenView::Array(a) => a.start <= a.end < limit && forall|i: int|
            0 <= i < a.values.len() ==> spans_within(#[trigger] a.values[i], limit),
    }
}

/// The byte offset of a character of the text is an offset into the text, and offsets grow
/// with the index.
pub proof fn lemma_position_in_text(text: Seq<char>, base: nat, i: nat, j: nat)
    requires
        i <= j < text.len(),
    ensures
        base <= position_at(text, base, i) <= position_at(text, base, j) < base + byte_len(text),
        position_at(text, base, i) + (j - i) <= position_at(text, base, j),
{
    lemma_byte_len_take(text, i as int, j as int);
    lemma_byte_len_take(text, j as int, text.len() as int);
    assert(text.take(text.len() as int) =~= text);
}

/// A run of digits and decimal points stays inside the text and takes one byte for each of
/// its characters.
pub proof fn lemma_number_run(text: Seq<char>, i: nat)
    requires
        i <= text.len(),
    ensures
        i + number_run(text, i) <= text.len(),
        forall|k: int|
            i <= k <= i + number_run(text, i) ==> #[trigger] byte_len(text.take(k)) == byte_len(
                text.take(i as int),
            ) + (k - i),
    decreases text.len() - i,
{
    if i < text.len() && (is_digit(text[i as int]) || text[i as int] == DOT_CHAR) {
        lemma_number_run(text, i + 1);
        lemma_byte_len_push(text.take(i as int), text[i as int]);
        assert(text.take(i as int).push(text[i as int]) =~= text.take(i + 1 as int));
    }
}

/// A number that the grammar yields lies in the text, and spans as many bytes as it has
/// characters.
pub proof fn lemma_number_span(text: Seq<char>, base: nat, i: nat)
    ensures
        number_at(text, base, i).outcome matches Ok(n) ==> {
            &&& i + number_at(text, base, i).moved < text.len()
            &&& n.start <= n.end < base + byte_len(text)
            &&& n.start + n.value.len() == n.end + 1
        },
{
    reveal(number_at);
    if i < text.len() && is_digit(text[i as int]) {
        let n = number_run(text, i + 1);
        lemma_number_run(text, i);
        lemma_position_in_text(text, base, i, (i + n) as nat);
    }
}

/// A string that the grammar yields lies in the text.
pub proof fn lemma_string_span(text: Seq<char>, base: nat, i: nat)
    ensures
        string_at(text, base, i).outcome matches Ok(s) ==> {
            &&& i + string_at(text, base, i).moved < text.len()
            &&& s.start <= s.end < base + byte_len(text)
        },
{
    reveal(string_at);
    if let Ok(s) = string_at(text, base, i).outcome {
        let n = string_run(text, i + 1);
        let close = (i + 1 + n) as nat;
        lemma_position_in_text(text, base, i + 1, close);
    }
}

/// Every element of `ts` spans bytes of a text of `limit` bytes.
pub open spec fn all_within(ts: Seq<TokenView>, limit: nat) -> bool {
    forall|k: int| 0 <= k < ts.len() ==> spans_within(#[trigger] ts[k], limit)
}

/// The value of every entry of `ps` spans bytes of a text of `limit` bytes.
pub open spec fn all_values_within(ps: Seq<PairView>, limit: nat) -> bool {
    forall|k: int| 0 <= k < ps.len() ==> spans_within((#[trigger] ps[k]).value, limit)
}

/// A value that the grammar yields ends inside the text, and every node of it spans bytes
/// of the text, first offset not after the last.
pub proof fn lemma_value_spans(text: Seq<char>, base: nat, i: nat)
    ensures
        value_at(text, base, i).outcome matches Ok(t) ==> {
            &&& i + value_at(text, base, i).moved < text.len()
            &&& spans_within(t, base + byte_len(text))
        },
    decreases remaining(text, i), 1nat,
{
    reveal(value_at);
    reveal(items_at);
    reveal(items_after);
    reveal(entries_at);
    reveal(entries_after);
    if i < text.len() {
        if is_digit(text[i as int]) {
            lemma_number_span(text, base, i);
        } else if text[i as int] == STRING_START_CHAR {
            lemma_string_span(text, base, i);
        } else if text[i as int] == OBJECT_START_CHAR {
            lemma_entries_spans(text, base, i);
            if entries_at(text, base, i).outcome is Ok {
                lemma_position_in_text(text, base, i, i + entries_at(text, base, i).moved);
            }
        } else if text[i as int] == ARRAY_START_CHAR {
            lemma_items_spans(text, base, i);
            if items_at(text, base, i).outcome is Ok {
                lemma_position_in_text(text, base, i, i + items_at(text, base, i).moved);
            }
        }
    }
}

/// The elements that the grammar yields for an array end inside the text, and so does each
/// node of each.
pub proof fn lemma_items_spans(text: Seq<char>, base: nat, i: nat)
    ensures
        items_at(text, base, i).outcome matches Ok(ts) ==> {
            &&& i + items_at(text, base, i).moved < text.len()
            &&& all_within(ts, base + byte_len(text))
        },
    decreases remaining(text, i), 0nat,
{
    reveal(value_at);
    reveal(items_at);
    reveal(items_after);
    reveal(entries_at);
    reveal(entries_after);
    let at = i + entry(text, i);
    if at < text.len() && text[at as int] != ARRAY_END_CHAR {
        lemma_value_spans(text, base, at);
        let value = value_at(text, base, at);
        if let Ok(first) = value.outcome {
            lemma_items_after_spans(text, base, at + value.moved);
            let rest = items_after(text, base, at + value.moved);
            if let Ok(others) = rest.outcome {
                let all = seq![first] + others;
                assert forall|k: int| 0 <= k < all.len() implies spans_within(
                    #[trigger] all[k],
                    base + byte_len(text),
                ) by {
                    if k > 0 {
                        assert(all[k] == others[k - 1]);
                    }
                }
            }
        }
    }
}

/// The same of the elements that follow one that ends at `last`.
pub proof fn lemma_items_after_spans(text: Seq<char>, base: nat, last: nat)
    ensures
        items_after(text, base, last).outcome matches Ok(ts) ==> {
            &&& last + items_after(text, base, last).moved < text.len()
            &&& all_within(ts, base + byte_len(text))
        },
    decreases remaining(text, last), 1nat,
{
    reveal(value_at);
    reveal(items_at);
    reveal(items_after);
    reveal(entries_at);
    reveal(entries_after);
    let separator = separator_at(text, last);
    if separator.outcome is Ok {
        lemma_items_spans(text, base, last + separator.moved);
    }
}

/// The entries that the grammar yields for an object end inside the text, and so does each
/// node of each value.
pub proof fn lemma_entries_spans(text: Seq<char>, base: nat, i: nat)
    ensures
        entries_at(text, base, i).outcome matches Ok(ps) ==> {
            &&& i + entries_at(text, base, i).moved < text.len()
            &&& all_values_within(ps, base + byte_len(text))
        },
    decreases remaining(text, i), 0nat,
{
    reveal(value_at);
    reveal(items_at);
    reveal(items_after);
    reveal(entries_at);
    reveal(entries_after);
    reveal(next_key_at);
    reveal(key_at);
    reveal(string_at);
    let key = next_key_at(text, base, i);
    if let Ok(Some(name)) = key.outcome {
        lemma_value_spans(text, base, i + key.moved);
        let value = value_at(text, base, i + key.moved);
        if let Ok(held) = value.outcome {
            lemma_entries_after_spans(text, base, i + key.moved + value.moved);
            let rest = entries_after(text, base, i + key.moved + value.moved);
            if let Ok(others) = rest.outcome {
                let all = seq![PairView { key: name, value: held }] + others;
                assert forall|k: int| 0 <= k < all.len() implies spans_within(
                    (#[trigger] all[k]).value,
                    base + byte_len(text),
                ) by {
                    if k > 0 {
                        assert(all[k] == others[k - 1]);
                    }
                }
            }
        }
    }
}

/// The same of the entries that follow one whose value ends at `last`.
pub proof fn lemma_entries_after_spans(text: Seq<char>, base: nat, last: nat)
    ensures
        entries_after(text, base, last).outcome matches Ok(ps) ==> {
            &&& last + entries_after(text, base, last).moved < text.len()
            &&& all_values_within(ps, base + byte_len(text))
        },
    decreases remaining(text, last), 1nat,
{
    reveal(value_at);
    reveal(items_at);
    reveal(items_after);
    reveal(entries_at);
    reveal(entries_after);
    let separator = separator_at(text, last);
    if separator.outcome is Ok {
        lemma_entries_spans(text, base, last + separator.moved);
    }
}

/// A tree that spans bytes of a text spans bytes of any longer one.
pub proof fn lemma_spans_widen(t: TokenView, limit: nat, wider: nat)
    requires
        spans_within(t, limit),
        limit <= wider,
    ensures
        spans_within(t, wider),
    decreases t,
{
    match t {
        TokenView::Number(_) => {},
        TokenView::String(_) => {},
        TokenView::Object(o) => {
            assert forall|i: int| 0 <= i < o.values.len() implies spans_within(
                (#[trigger] o.values[i]).value,
                wider,
            ) by {
                lemma_spans_widen(o.values[i].value, limit, wider);
            }
        },
        TokenView::Array(a) => {
            assert forall|i: int| 0 <= i < a.values.len() implies spans_within(
                #[trigger] a.values[i],
                wider,
            ) by {
                lemma_spans_widen(a.values[i], limit, wider);
            }
        },
    }
}

} // verus!
