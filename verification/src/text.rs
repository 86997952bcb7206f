use vstd::prelude::*;
use vstd::utf8::encode_scalar;
use vstd::utf8::encode_utf8;

verus! {

/// Whether `c` has the Unicode property White_Space: the space, the controls from tab to
/// carriage return, next line, the no-break spaces, the Ogham space mark, the spaces from en
/// quad to hair space, the line and paragraph separators, the medium mathematical space and
/// the ideographic space.
pub open spec fn is_white_space(c: char) -> bool {
    ||| c == ' '
    ||| '\u{9}' <= c <= '\u{d}'
    ||| c == '\u{85}'
    ||| c == '\u{a0}'
    ||| c == '\u{1680}'
    ||| '\u{2000}' <= c <= '\u{200a}'
    ||| c == '\u{2028}'
    ||| c == '\u{2029}'
    ||| c == '\u{202f}'
    ||| c == '\u{205f}'
    ||| c == '\u{3000}'
}

/// `char::is_whitespace` of std: true of the characters that have the Unicode property
/// White_Space, which are those that [`is_white_space`] lists, and of no other.
pub assume_specification[ char::is_whitespace ](c: char) -> (b: bool)
    ensures
        b == is_white_space(c),
;

/// `String::push` of std: the character is appended at the end and nothing else changes.
pub assume_specification[ std::string::String::push ](s: &mut std::string::String, c: char)
    ensures
        final(s)@ == old(s)@.push(c),
;

/// Number of bytes of the UTF-8 encoding of `c`.
pub open spec fn utf8_width(c: char) -> nat {
    encode_scalar(c as u32).len()
}

/// Number of bytes of the UTF-8 encoding of `s`.
pub open spec fn byte_len(s: Seq<char>) -> nat {
    encode_utf8(s).len()
}

/// Every character takes between one and four bytes.
pub proof fn lemma_utf8_width_bounds(c: char)
    ensures
        1 <= utf8_width(c) <= 4,
{
}

/// The encoding of a concatenation is the concatenation of the encodings.
pub proof fn lemma_encode_concat(a: Seq<char>, b: Seq<char>)
    ensures
        encode_utf8(a + b) == encode_utf8(a) + encode_utf8(b),
    decreases a.len(),
{
    if a.len() == 0 {
        assert(a + b =~= b);
        assert(encode_utf8(a) + encode_utf8(b) =~= encode_utf8(b));
    } else {
        lemma_encode_concat(a.drop_first(), b);
        assert((a + b).drop_first() =~= a.drop_first() + b);
        assert(encode_utf8(a + b) =~= encode_utf8(a) + encode_utf8(b));
    }
}

/// Appending one character adds its width.
pub proof fn lemma_byte_len_push(s: Seq<char>, c: char)
    ensures
        byte_len(s.push(c)) == byte_len(s) + utf8_width(c),
{
    lemma_encode_concat(s, seq![c]);
    assert(s.push(c) =~= s + seq![c]);
    assert(seq![c].drop_first() =~= Seq::<char>::empty());
    assert(encode_utf8(seq![c]) =~= encode_scalar(c as u32)) by {
        reveal_with_fuel(encode_utf8, 2);
    }
}

/// A text takes at least one byte and at most four for each of its characters.
pub proof fn lemma_byte_len_bounds(s: Seq<char>)
    ensures
        s.len() <= byte_len(s) <= 4 * s.len(),
    decreases s.len(),
{
    if s.len() > 0 {
        lemma_byte_len_bounds(s.drop_last());
        lemma_byte_len_push(s.drop_last(), s.last());
        lemma_utf8_width_bounds(s.last());
        assert(s.drop_last().push(s.last()) =~= s);
    }
}

/// A prefix is no longer in bytes than the whole, and a proper prefix is shorter.
pub proof fn lemma_byte_len_take(s: Seq<char>, i: int, j: int)
    requires
        0 <= i <= j <= s.len(),
    ensures
        byte_len(s.take(i)) <= byte_len(s.take(j)),
        i < j ==> byte_len(s.take(i)) < byte_len(s.take(j)),
        j - i <= byte_len(s.take(j)) - byte_len(s.take(i)),
    decreases j - i,
{
    if i < j {
        lemma_byte_len_take(s, i, j - 1);
        lemma_byte_len_push(s.take(j - 1), s[j - 1]);
        lemma_utf8_width_bounds(s[j - 1]);
        assert(s.take(j - 1).push(s[j - 1]) =~= s.take(j));
    }
}

/// The width of `c`, computed from its code point.
pub fn char_width(c: char) -> (w: usize)
    ensures
        w == utf8_width(c),
{
    let code: u32 = c as u32;
    if code < 0x80 {
        1
    } else if code < 0x800 {
        2
    } else if code < 0x10000 {
        3
    } else {
        4
    }
}

/// `s` without the white space at its front.
pub open spec fn trim_start(s: Seq<char>) -> Seq<char>
    decreases s.len(),
{
    if s.len() > 0 && is_white_space(s.first()) {
        trim_start(s.drop_first())
    } else {
        s
    }
}

/// `s` without the white space at its back.
pub open spec fn trim_end(s: Seq<char>) -> Seq<char>
    decreases s.len(),
{
    if s.len() > 0 && is_white_space(s.last()) {
        trim_end(s.drop_last())
    } else {
        s
    }
}

/// `s` without the white space at either end.
pub open spec fn trimmed(s: Seq<char>) -> Seq<char> {
    trim_end(trim_start(s))
}

/// What `trim_start` leaves is the rest of `s` from some index on, with white space and
/// nothing else before that index and none at it.
pub proof fn lemma_trim_start(s: Seq<char>) -> (from: int)
    ensures
        0 <= from <= s.len(),
        trim_start(s) == s.skip(from),
        forall|k: int| 0 <= k < from ==> is_white_space(#[trigger] s[k]),
        from < s.len() ==> !is_white_space(s[from]),
    decreases s.len(),
{
    if s.len() > 0 && is_white_space(s.first()) {
        let inner = lemma_trim_start(s.drop_first());
        assert(s.drop_first().skip(inner) =~= s.skip(inner + 1));
        assert forall|k: int| 0 <= k < inner + 1 implies is_white_space(#[trigger] s[k]) by {
            if k > 0 {
                assert(s[k] == s.drop_first()[k - 1]);
            }
        }
        inner + 1
    } else {
        assert(s.skip(0) =~= s);
        0
    }
}

/// What `trim_end` leaves is `s` up to some index, with white space and nothing else from that
/// index on and none right before it.
pub proof fn lemma_trim_end(s: Seq<char>) -> (to: int)
    ensures
        0 <= to <= s.len(),
        trim_end(s) == s.take(to),
        forall|k: int| to <= k < s.len() ==> is_white_space(#[trigger] s[k]),
        0 < to ==> !is_white_space(s[to - 1]),
    decreases s.len(),
{
    if s.len() > 0 && is_white_space(s.last()) {
        let inner = lemma_trim_end(s.drop_last());
        assert(s.drop_last().take(inner) =~= s.take(inner));
        assert forall|k: int| inner <= k < s.len() implies is_white_space(#[trigger] s[k]) by {
            if k < s.len() - 1 {
                assert(s[k] == s.drop_last()[k]);
            }
        }
        inner
    } else {
        assert(s.take(s.len() as int) =~= s);
        s.len() as int
    }
}

/// Trimming cuts a slice out of the text: white space and nothing else is left out on either
/// side, and the slice neither begins nor ends with white space.
pub proof fn lemma_trimmed(s: Seq<char>) -> (bounds: (int, int))
    ensures
        0 <= bounds.0 <= bounds.1 <= s.len(),
        trimmed(s) == s.subrange(bounds.0, bounds.1),
        forall|k: int| 0 <= k < bounds.0 ==> is_white_space(#[trigger] s[k]),
        forall|k: int| bounds.1 <= k < s.len() ==> is_white_space(#[trigger] s[k]),
        bounds.0 < bounds.1 ==> !is_white_space(s[bounds.0]) && !is_white_space(s[bounds.1 - 1]),
{
    let from = lemma_trim_start(s);
    let rest = s.skip(from);
    let to = lemma_trim_end(rest);
    assert(rest.take(to) =~= s.subrange(from, from + to));
    assert forall|k: int| from + to <= k < s.len() implies is_white_space(#[trigger] s[k]) by {
        assert(s[k] == rest[k - from]);
    }
    if to > 0 {
        assert(rest[to - 1] == s[from + to - 1]);
        assert(rest[0] == s[from]);
    }
    (from, from + to)
}

/// Number of white-space characters that `s` begins with.
pub open spec fn leading_white_space(s: Seq<char>) -> nat
    decreases s.len(),
{
    if s.len() > 0 && is_white_space(s.first()) {
        1 + leading_white_space(s.drop_first())
    } else {
        0
    }
}

/// Number of bytes of the white space that `s` begins with: the byte offset in `s` of the
/// first character that trimming keeps.
pub open spec fn leading_bytes(s: Seq<char>) -> nat {
    byte_len(s.take(leading_white_space(s) as int))
}

/// The white space that `s` begins with lies in `s`, and what is left after it is what
/// `trim_start` leaves.
pub proof fn lemma_leading_white_space(s: Seq<char>)
    ensures
        leading_white_space(s) <= s.len(),
        trim_start(s) == s.skip(leading_white_space(s) as int),
    decreases s.len(),
{
    if s.len() > 0 && is_white_space(s.first()) {
        lemma_leading_white_space(s.drop_first());
        assert(s.drop_first().skip(leading_white_space(s.drop_first()) as int) =~= s.skip(
            leading_white_space(s) as int,
        ));
    } else {
        assert(s.skip(0) =~= s);
    }
}

/// The white space cut at the front and the text that trimming keeps are together no longer
/// in bytes than the whole.
pub proof fn lemma_trimmed_bytes(s: Seq<char>)
    ensures
        leading_bytes(s) + byte_len(trimmed(s)) <= byte_len(s),
{
    lemma_leading_white_space(s);
    let from = leading_white_space(s) as int;
    let rest = s.skip(from);
    let to = lemma_trim_end(rest);
    assert(rest.take(to) =~= s.subrange(from, from + to));
    assert(s.take(from) + s.subrange(from, from + to) =~= s.take(from + to));
    lemma_encode_concat(s.take(from), s.subrange(from, from + to));
    lemma_byte_len_take(s, from + to, s.len() as int);
    assert(s.take(s.len() as int) =~= s);
}

/// The characters of `s` between its leading and trailing white space, and the number of
/// bytes of the white space before them.
pub fn trimmed_chars(s: &str) -> (r: (Vec<char>, usize))
    ensures
        r.0@ == trimmed(s@),
        r.1 == leading_bytes(s@),
        r.1 + byte_len(r.0@) <= usize::MAX,
{
    let capacity: usize = s.as_bytes().len();
    let mut chars: Vec<char> = Vec::with_capacity(capacity);
    let mut base: usize = 0;
    let mut started = false;
    proof {
        assert(s@.skip(0) =~= s@);
        assert(s@.take(0) =~= Seq::<char>::empty());
        lemma_leading_white_space(s@);
    }
    for c in it: s.chars()
        invariant
            it.seq() == s@,
            byte_len(s@) == capacity,
            trim_start(s@) == s@.skip(leading_white_space(s@) as int),
            !started ==> chars@.len() == 0 && leading_white_space(s@) == it.index()
                + leading_white_space(s@.skip(it.index())),
            started ==> chars@ + s@.skip(it.index()) == trim_start(s@) && leading_white_space(s@)
                <= it.index(),
            base == byte_len(
                s@.take(
                    if started {
                        leading_white_space(s@) as int
                    } else {
                        it.index()
                    },
                ),
            ),
            base + byte_len(chars@) == byte_len(s@.take(it.index())),
    {
        let ghost index = it.index();
        proof {
            lemma_byte_len_push(chars@, c);
            lemma_byte_len_push(s@.take(index), c);
            lemma_byte_len_take(s@, index + 1, s@.len() as int);
            assert(s@.take(s@.len() as int) =~= s@);
            assert(s@.take(index).push(c) =~= s@.take(index + 1));
            assert(s@.skip(index).drop_first() =~= s@.skip(index + 1));
            assert(s@.skip(index).first() == c);
        }
        if started || !c.is_whitespace() {
            proof {
                assert(chars@.push(c) + s@.skip(index + 1) =~= chars@ + s@.skip(index));
                if !started {
                    assert(chars@ + s@.skip(index) =~= s@.skip(index));
                }
            }
            started = true;
            chars.push(c);
        } else {
            base = base + char_width(c);
        }
    }
    proof {
        assert(s@.skip(s@.len() as int) =~= Seq::<char>::empty());
        assert(chars@ + Seq::<char>::empty() =~= chars@);
        assert(s@.take(s@.len() as int) =~= s@);
    }
    while chars.len() > 0 && chars[chars.len() - 1].is_whitespace()
        invariant
            trim_end(chars@) == trimmed(s@),
            base + byte_len(chars@) <= usize::MAX,
        decreases chars.len(),
    {
        proof {
            lemma_byte_len_push(chars@.drop_last(), chars@.last());
            assert(chars@.drop_last().push(chars@.last()) =~= chars@);
        }
        chars.pop();
    }
    (chars, base)
}

} // verus!
