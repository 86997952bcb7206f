use vstd::prelude::*;

pub mod parser;
pub mod text;
pub mod values;

pub use parser::errors::ParserError;
pub use values::Token;

verus! {

/// Parses the json string passed as parameter and returns a Result with the Token Enum type.
///
/// White space around the text is set aside, then the one value that the text begins with
/// is read. The outcome, tree or error, is the one that the grammar assigns to the text, with
/// every byte offset counted from the start of `json_string`.
pub fn parse_json(json_string: &str) -> (r: Result<Token, ParserError>)
    ensures
        parser::viewed(r) == parser::grammar::document(json_string@),
        r matches Ok(token) ==> parser::spans::spans_within(token@, text::byte_len(json_string@)),
{
    let mut parser = parser::JSONParser::new(json_string);
    let r = parser.parse();
    proof {
        if r is Ok {
            text::lemma_trimmed_bytes(json_string@);
            parser::spans::lemma_spans_widen(
                r->Ok_0@,
                text::leading_bytes(json_string@) + text::byte_len(text::trimmed(json_string@)),
                text::byte_len(json_string@),
            );
        }
    }
    r
}

/// Parsing keeps nothing from one run to the next: whatever two runs of [`parse_json`] over
/// the same text return, they return the same tree, node for node, or the same error.
pub proof fn lemma_parse_json_repeats(
    first: &str,
    second: &str,
    a: Result<Token, ParserError>,
    b: Result<Token, ParserError>,
)
    requires
        first@ == second@,
        parser::viewed(a) == parser::grammar::document(first@),
        parser::viewed(b) == parser::grammar::document(second@),
    ensures
        parser::viewed(a) == parser::viewed(b),
        a is Ok <==> b is Ok,
{
}

} // verus!
