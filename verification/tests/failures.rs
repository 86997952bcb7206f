use pjson_parser::parse_json;
use pjson_parser::parser::JSONParser;
use pjson_parser::ParserError;

#[test]
fn empty_text_ends_unexpectedly() {
    assert!(matches!(parse_json(""), Err(ParserError::UnexpectedEndError)));
    assert!(matches!(parse_json("   \n\t"), Err(ParserError::UnexpectedEndError)));
}

#[test]
fn unquoted_key_is_reported_at_its_position() {
    assert!(matches!(
        parse_json(r#"{a: 1}"#),
        Err(ParserError::UnexpectedCharacterError('a', 1))
    ));
    assert!(matches!(
        parse_json(r#"{  a: 1}"#),
        Err(ParserError::UnexpectedCharacterError('a', 3))
    ));
}

#[test]
fn literals_outside_the_grammar_are_rejected() {
    assert!(matches!(parse_json("true"), Err(ParserError::UnexpectedCharacterError('t', 0))));
    assert!(matches!(parse_json("null"), Err(ParserError::UnexpectedCharacterError('n', 0))));
    assert!(matches!(parse_json("-1"), Err(ParserError::UnexpectedCharacterError('-', 0))));
    assert!(matches!(parse_json(".5"), Err(ParserError::UnexpectedCharacterError('.', 0))));
    assert!(matches!(parse_json("]"), Err(ParserError::UnexpectedCharacterError(']', 0))));
}

#[test]
fn unterminated_string_ends_unexpectedly() {
    assert!(matches!(parse_json("\"abc"), Err(ParserError::UnexpectedEndError)));
    assert!(matches!(parse_json("\""), Err(ParserError::UnexpectedEndError)));
    // the last quote is escaped by the backslash before it, so nothing closes the string
    assert!(matches!(parse_json("\"a\\\\\""), Err(ParserError::UnexpectedEndError)));
}

#[test]
fn unterminated_containers_end_unexpectedly() {
    assert!(matches!(parse_json("["), Err(ParserError::UnexpectedEndError)));
    assert!(matches!(parse_json("[1"), Err(ParserError::UnexpectedEndError)));
    assert!(matches!(parse_json("[1,"), Err(ParserError::UnexpectedEndError)));
    assert!(matches!(parse_json("[[1]"), Err(ParserError::UnexpectedEndError)));
    assert!(matches!(parse_json("{"), Err(ParserError::UnexpectedEndError)));
    assert!(matches!(parse_json("{\"a\""), Err(ParserError::UnexpectedEndError)));
    assert!(matches!(parse_json("{\"a\":"), Err(ParserError::UnexpectedEndError)));
    assert!(matches!(parse_json("{\"a\":1"), Err(ParserError::UnexpectedEndError)));
}

#[test]
fn missing_colon_is_reported_at_the_character_found() {
    assert!(matches!(
        parse_json(r#"{"a" 1}"#),
        Err(ParserError::UnexpectedCharacterError('1', 5))
    ));
    assert!(matches!(
        parse_json(r#"{"a"}"#),
        Err(ParserError::UnexpectedCharacterError('}', 4))
    ));
}

#[test]
fn wrong_closer_is_reported() {
    assert!(matches!(parse_json("[1}"), Err(ParserError::UnexpectedCharacterError('}', 2))));
    assert!(matches!(parse_json("[,]"), Err(ParserError::UnexpectedCharacterError(',', 1))));
    assert!(matches!(
        parse_json(r#"{"a":1 "b":2}"#),
        Err(ParserError::UnexpectedCharacterError('b', 8))
    ));
}

#[test]
fn only_the_space_character_is_skipped() {
    assert!(matches!(parse_json("[1,\t2]"), Err(ParserError::UnexpectedCharacterError('\t', 3))));
    assert!(matches!(parse_json("[\n1]"), Err(ParserError::UnexpectedCharacterError('\n', 1))));
    assert!(matches!(
        parse_json("{\"a\":\r1}"),
        Err(ParserError::UnexpectedCharacterError('\r', 5))
    ));
}

#[test]
fn positions_in_errors_count_bytes() {
    assert!(matches!(parse_json("[é]"), Err(ParserError::UnexpectedCharacterError('é', 1))));
    assert!(matches!(
        parse_json("{\"é\":x}"),
        Err(ParserError::UnexpectedCharacterError('x', 6))
    ));
    assert!(matches!(
        parse_json("[\"日本\",語]"),
        Err(ParserError::UnexpectedCharacterError('語', 10))
    ));
}

#[test]
fn positions_in_errors_count_from_the_start_of_the_whole_text() {
    assert!(matches!(parse_json("  [x]"), Err(ParserError::UnexpectedCharacterError('x', 3))));
    assert!(matches!(
        parse_json("\u{2003}\n{a}"),
        Err(ParserError::UnexpectedCharacterError('a', 5))
    ));
    assert!(matches!(parse_json("\t?  "), Err(ParserError::UnexpectedCharacterError('?', 1))));
    assert!(matches!(
        JSONParser::new("  ]").parse_object(),
        Err(ParserError::UnexpectedCharacterError(']', 2))
    ));
    assert!(matches!(
        JSONParser::new("   ").parse_array(),
        Err(ParserError::UnexpectedCharacterError('\0', 3))
    ));
    assert_eq!(
        parse_json("   {\"a\" 1}").unwrap_err().to_string(),
        "Unexpected character 1 at position 8"
    );
}

#[test]
fn number_production_refuses_anything_but_a_digit() {
    assert!(matches!(JSONParser::new("a").parse_number(), Err(ParserError::UnexpectedEndError)));
    assert!(matches!(JSONParser::new(".5").parse_number(), Err(ParserError::UnexpectedEndError)));
    assert!(matches!(JSONParser::new("").parse_number(), Err(ParserError::UnexpectedEndError)));
}

#[test]
fn string_production_names_the_character_found() {
    assert!(matches!(
        JSONParser::new("abc").parse_string(),
        Err(ParserError::UnexpectedCharacterError('a', 0))
    ));
    assert!(matches!(JSONParser::new("").parse_string(), Err(ParserError::UnexpectedEndError)));
}

#[test]
fn container_productions_name_the_character_found() {
    assert!(matches!(
        JSONParser::new("[]").parse_object(),
        Err(ParserError::UnexpectedCharacterError('[', 0))
    ));
    assert!(matches!(
        JSONParser::new("{}").parse_array(),
        Err(ParserError::UnexpectedCharacterError('{', 0))
    ));
    assert!(matches!(
        JSONParser::new("").parse_object(),
        Err(ParserError::UnexpectedCharacterError('\0', 0))
    ));
    assert!(matches!(
        JSONParser::new("  ").parse_array(),
        Err(ParserError::UnexpectedCharacterError('\0', 2))
    ));
}

#[test]
fn errors_render_as_sentences() {
    assert_eq!(
        ParserError::UnexpectedCharacterError('a', 1).to_string(),
        "Unexpected character a at position 1"
    );
    assert_eq!(
        ParserError::UnexpectedCharacterError('é', 1234567890).to_string(),
        "Unexpected character é at position 1234567890"
    );
    assert_eq!(
        ParserError::UnexpectedCharacterError('\0', 0).to_string(),
        "Unexpected character \0 at position 0"
    );
    assert_eq!(
        ParserError::UnexpectedNumberError(42).to_string(),
        "Unexpected number at position 42"
    );
    assert_eq!(ParserError::UnexpectedNumberError(10).to_string(), "Unexpected number at position 10");
    assert_eq!(ParserError::UnexpectedEndError.to_string(), "Unexpected end of JSON input");
    assert_eq!(
        ParserError::UnexpectedNumberError(usize::MAX).to_string(),
        format!("Unexpected number at position {}", usize::MAX)
    );
}

#[test]
fn error_of_a_parse_renders_with_its_position() {
    let error = parse_json(r#"{"key": [1, 2, x]}"#).unwrap_err();
    assert_eq!(error.to_string(), "Unexpected character x at position 15");
}
