use pjson_parser::parser::JSONParser;
use pjson_parser::values::NumberToken;
use pjson_parser::values::ObjectToken;
use pjson_parser::values::StringToken;
use std::convert::TryInto;

#[test]
fn json_parser_parses_empty_array() {
    let mut parser = JSONParser::new("[]");
    let array_token = parser.parse_array().unwrap();
    assert_eq!(array_token.values.len(), 0);
}

#[test]
fn json_parser_parses_array_with_different_types() {
    let mut parser = JSONParser::new(r#"[1, "good" ,{"a": 1}]"#);
    let array_token = parser.parse_array().unwrap();
    assert_eq!(array_token.values.len(), 3);

    let number_token: NumberToken = (&array_token.values[0]).clone().try_into().unwrap();
    assert_eq!(number_token.value, "1");

    let string_token: StringToken = (&array_token.values[1]).clone().try_into().unwrap();
    assert_eq!(string_token.value, "good");
}

#[test]
fn json_parser_parses_empty_object() {
    let mut parser = JSONParser::new("{}");
    let object_token = parser.parse_object().unwrap();
    assert_eq!(object_token.values.len(), 0);
}

#[test]
fn json_parser_parses_object_with_leading_and_trailing_spaces() {
    let mut parser = JSONParser::new("   {} ");
    let object_token = parser.parse_object().unwrap();
    assert_eq!(object_token.values.len(), 0);
}

#[test]
fn json_parser_parses_object_with_single_pair() {
    let mut parser = JSONParser::new(r#"{"hello": 1}"#);
    let object_token = parser.parse_object().unwrap();
    assert_eq!(object_token.values.len(), 1);

    let mut parser = JSONParser::new(r#"{"name" : "james_bond"}"#);
    let object_token = parser.parse_object().unwrap();
    assert_eq!(object_token.values.len(), 1);
}

#[test]
fn json_parser_parses_object_with_multiple_and_nested_pair() {
    let mut parser = JSONParser::new(r#"{"a":1 , "b": {"c":2.5}}"#);
    let object_token = parser.parse_object().unwrap();
    assert_eq!(object_token.values.len(), 2);

    // second token value should have one child and 2 as number
    let second_object_token = &object_token.values[1];
    assert_eq!(second_object_token.key, "b");

    let second_object_token_value_object_token: ObjectToken =
        second_object_token.value.clone().try_into().unwrap();

    assert_eq!(second_object_token_value_object_token.values.len(), 1);
    assert_eq!(second_object_token_value_object_token.values[0].key, "c");

    let second_number_token: NumberToken = second_object_token_value_object_token.values[0]
        .value
        .clone()
        .try_into()
        .unwrap();
    assert_eq!(second_number_token.value, "2.5");
}

#[test]
fn json_parser_parses_number() {
    let mut parser = JSONParser::new("1234");
    let number = parser.parse_number().unwrap();
    assert_eq!(number.value, "1234");
    assert_eq!(number.length(), 4);
}

#[test]
fn json_parser_parses_floating_point_number() {
    let mut parser = JSONParser::new("12.34");
    let number = parser.parse_number().unwrap();
    assert_eq!(number.value, "12.34");
    assert_eq!(number.length(), 5);
}

#[test]
fn json_parser_parses_zero_number() {
    let mut parser = JSONParser::new("0");
    let number = parser.parse_number().unwrap();
    assert_eq!(number.value, "0");
    assert_eq!(number.length(), 1);
}

#[test]
fn json_parser_parses_string() {
    let mut parser = JSONParser::new("\"tell me more\"");
    let string = parser.parse_string().unwrap();
    assert_eq!(string.value, "tell me more");
    assert_eq!(string.length(), 12);
}

#[test]
fn json_parser_parses_string_contain_quotes() {
    let mut parser = JSONParser::new("\"tell me \\\"more\"");
    let string = parser.parse_string().unwrap();
    assert_eq!(string.value, "tell me \\\"more");
    assert_eq!(string.length(), 14);
}

#[test]
fn json_parser_parses_empty_string() {
    let mut parser = JSONParser::new("\"\"");
    let string = parser.parse_string().unwrap();
    assert_eq!(string.value, "");
    assert_eq!(string.length(), 0);
}

#[test]
fn json_parser_parses_single_char_string() {
    let mut parser = JSONParser::new("\"a\"");
    let string = parser.parse_string().unwrap();
    assert_eq!(string.value, "a");
    assert_eq!(string.length(), 1);
}
