use pjson_parser::parse_json;
use pjson_parser::parser::JSONParser;
use pjson_parser::values::ArrayToken;
use pjson_parser::values::NumberToken;
use pjson_parser::values::ObjectToken;
use pjson_parser::values::StringToken;
use pjson_parser::Token;
use std::convert::TryFrom;

fn number(token: &Token) -> NumberToken {
    NumberToken::try_from(token.clone()).unwrap()
}

fn string(token: &Token) -> StringToken {
    StringToken::try_from(token.clone()).unwrap()
}

fn object(token: &Token) -> ObjectToken {
    ObjectToken::try_from(token.clone()).unwrap()
}

fn array(token: &Token) -> ArrayToken {
    ArrayToken::try_from(token.clone()).unwrap()
}

#[test]
fn empty_object_and_array_through_the_entry_point() {
    let o = object(&parse_json("{}").unwrap());
    assert_eq!(o.values.len(), 0);
    assert_eq!((o.start, o.end), (0, 1));
    let a = array(&parse_json("[]").unwrap());
    assert_eq!(a.values.len(), 0);
    assert_eq!((a.start, a.end), (0, 1));
    let spaced = array(&parse_json("[   ]").unwrap());
    assert_eq!(spaced.values.len(), 0);
    assert_eq!((spaced.start, spaced.end), (0, 4));
}

#[test]
fn numbers_through_the_entry_point() {
    let n = number(&parse_json("1234").unwrap());
    assert_eq!(n.value, "1234");
    assert_eq!((n.start, n.end), (0, 3));
    assert_eq!(n.length(), 4);
    let n = number(&parse_json("12.34").unwrap());
    assert_eq!(n.value, "12.34");
    assert_eq!(n.length(), 5);
    let n = number(&parse_json("0").unwrap());
    assert_eq!(n.value, "0");
    assert_eq!((n.start, n.end), (0, 0));
    assert_eq!(n.length(), 1);
}

#[test]
fn number_text_is_kept_as_written() {
    let n = number(&parse_json("007").unwrap());
    assert_eq!(n.value, "007");
    let n = number(&parse_json("1.2.3..").unwrap());
    assert_eq!(n.value, "1.2.3..");
    assert_eq!((n.start, n.end), (0, 6));
    // no exponent and no sign: the literal stops before them
    let n = number(&parse_json("1e5").unwrap());
    assert_eq!(n.value, "1");
    let n = number(&parse_json("3-4").unwrap());
    assert_eq!(n.value, "3");
}

#[test]
fn strings_through_the_entry_point() {
    let s = string(&parse_json("\"tell me \\\"more\"").unwrap());
    assert_eq!(s.value, "tell me \\\"more");
    assert_eq!(s.length(), 14);
    assert_eq!((s.start, s.end), (1, 14));
    let s = string(&parse_json("\"\"").unwrap());
    assert_eq!(s.value, "");
    assert_eq!(s.length(), 0);
    assert_eq!((s.start, s.end), (1, 1));
    let s = string(&parse_json("\"a\"").unwrap());
    assert_eq!((s.start, s.end), (1, 1));
}

#[test]
fn escapes_are_not_translated() {
    let s = string(&parse_json(r#""a\nbA\\n""#).unwrap());
    assert_eq!(s.value, r#"a\nbA\\n"#);
    let s = string(&parse_json(r#""\"""#).unwrap());
    assert_eq!(s.value, r#"\""#);
    assert_eq!(s.length(), 2);
}

#[test]
fn string_spans_count_bytes_and_length_counts_characters() {
    let s = string(&parse_json("\"é\"").unwrap());
    assert_eq!(s.value, "é");
    assert_eq!((s.start, s.end), (1, 2));
    assert_eq!(s.length(), 1);
    let a = array(&parse_json("[\"日本\", 7]").unwrap());
    assert_eq!((a.start, a.end), (0, 12));
    let s = string(&a.values[0]);
    assert_eq!(s.value, "日本");
    assert_eq!((s.start, s.end), (2, 7));
    assert_eq!(s.length(), 2);
    let n = number(&a.values[1]);
    assert_eq!((n.start, n.end), (11, 11));
    let s = string(&parse_json("\"𝄞x\"").unwrap());
    assert_eq!((s.start, s.end), (1, 5));
    assert_eq!(s.length(), 2);
}

#[test]
fn nested_object_with_spans() {
    let o = object(&parse_json(r#"{"a":1 , "b": {"c":2.5}}"#).unwrap());
    assert_eq!(o.values.len(), 2);
    assert_eq!((o.start, o.end), (0, 23));
    assert_eq!(o.values[0].key, "a");
    let first = number(&o.values[0].value);
    assert_eq!(first.value, "1");
    assert_eq!((first.start, first.end), (5, 5));
    assert_eq!(o.values[1].key, "b");
    let inner = object(&o.values[1].value);
    assert_eq!(inner.values.len(), 1);
    assert_eq!((inner.start, inner.end), (14, 22));
    assert_eq!(inner.values[0].key, "c");
    let second = number(&inner.values[0].value);
    assert_eq!(second.value, "2.5");
    assert_eq!((second.start, second.end), (19, 21));
    assert_eq!(second.length(), 3);
}

#[test]
fn array_of_different_kinds_through_the_entry_point() {
    let a = array(&parse_json(r#"[1, "good" ,{"a": 1}]"#).unwrap());
    assert_eq!(a.values.len(), 3);
    assert_eq!((a.start, a.end), (0, 20));
    assert_eq!(number(&a.values[0]).value, "1");
    let s = string(&a.values[1]);
    assert_eq!(s.value, "good");
    assert_eq!((s.start, s.end), (5, 8));
    let o = object(&a.values[2]);
    assert_eq!(o.values.len(), 1);
    assert_eq!(o.values[0].key, "a");
    assert_eq!((o.start, o.end), (12, 19));
}

#[test]
fn element_order_is_source_order_and_duplicate_keys_stay() {
    let a = array(&parse_json("[3,1,2]").unwrap());
    let texts: Vec<String> = a.values.iter().map(|t| number(t).value).collect();
    assert_eq!(texts, vec!["3", "1", "2"]);
    let o = object(&parse_json(r#"{"k":1,"k":2,"a":3}"#).unwrap());
    let keys: Vec<String> = o.values.iter().map(|p| p.key.clone()).collect();
    assert_eq!(keys, vec!["k", "k", "a"]);
    assert_eq!(number(&o.values[1].value).value, "2");
}

#[test]
fn separators_as_the_grammar_has_them() {
    // a comma right before the closer is passed over
    assert_eq!(array(&parse_json("[1,2,]").unwrap()).values.len(), 2);
    // after spaces the next character is taken for the separator, whatever it is
    assert_eq!(array(&parse_json("[1 2]").unwrap()).values.len(), 1);
    assert_eq!(array(&parse_json("[1 , 2]").unwrap()).values.len(), 2);
    assert_eq!(array(&parse_json("[1   ,   2]").unwrap()).values.len(), 2);
    // so spaces before the closer use it up, and the text ends before another is found
    assert!(parse_json("[1 ]").is_err());
    assert!(parse_json("[1   ,   2   ]").is_err());
    assert!(parse_json(r#"{"a":[1]  }"#).is_err());
    // a value may follow another without anything in between
    let a = array(&parse_json(r#"["a""b"]"#).unwrap());
    assert_eq!(a.values.len(), 2);
    assert_eq!(string(&a.values[1]).value, "b");
    let o = object(&parse_json(r#"{"a":[1]}"#).unwrap());
    assert_eq!(o.values.len(), 1);
    assert_eq!((o.start, o.end), (0, 8));
}

#[test]
fn nested_empty_containers() {
    let a = array(&parse_json("[[],{},[[]]]").unwrap());
    assert_eq!(a.values.len(), 3);
    assert_eq!(array(&a.values[0]).values.len(), 0);
    assert_eq!(object(&a.values[1]).values.len(), 0);
    let last = array(&a.values[2]);
    assert_eq!((last.start, last.end), (7, 10));
    assert_eq!(array(&last.values[0]).values.len(), 0);
    let o = object(&parse_json(r#"{"a":[],"b":{}}"#).unwrap());
    assert_eq!(o.values.len(), 2);
    assert_eq!(array(&o.values[0].value).values.len(), 0);
    assert_eq!(object(&o.values[1].value).values.len(), 0);
}

#[test]
fn text_after_the_first_value_is_not_read() {
    assert_eq!(number(&parse_json("1 2").unwrap()).value, "1");
    assert_eq!(array(&parse_json("[1]]").unwrap()).values.len(), 1);
    assert_eq!(string(&parse_json("\"a\" trailing").unwrap()).value, "a");
}

#[test]
fn white_space_around_the_text_is_set_aside() {
    let n = number(&parse_json("\n\t 42 \r\n").unwrap());
    assert_eq!(n.value, "42");
    assert_eq!((n.start, n.end), (3, 4));
    let n = number(&parse_json("\u{2003}7\u{a0}\u{3000}").unwrap());
    assert_eq!(n.value, "7");
    assert_eq!((n.start, n.end), (3, 3));
    let a = array(&parse_json("\u{85}[1]\u{2028}").unwrap());
    assert_eq!((a.start, a.end), (2, 4));
}

#[test]
fn offsets_count_from_the_start_of_the_whole_text() {
    let text = "   {} ";
    let o = object(&parse_json(text).unwrap());
    assert_eq!(o.values.len(), 0);
    assert_eq!((o.start, o.end), (3, 4));
    assert_eq!(&text[o.start..=o.end], "{}");

    let text = " \u{3000}\t{\"k\": [10, \"é\"]}\n";
    let o = object(&parse_json(text).unwrap());
    assert_eq!(&text[o.start..=o.end], "{\"k\": [10, \"é\"]}");
    let a = array(&o.values[0].value);
    assert_eq!(&text[a.start..=a.end], "[10, \"é\"]");
    let n = number(&a.values[0]);
    assert_eq!(&text[n.start..=n.end], "10");
    assert_eq!(n.length(), 2);
    let s = string(&a.values[1]);
    assert_eq!(&text[s.start..=s.end], "é");
    assert_eq!((o.start, a.start, n.start, s.start), (5, 11, 12, 17));
}

#[test]
fn parsing_twice_gives_the_same_tree() {
    let text = r#"  {"a":[1, 2.5, "x\"y"], "b": {"c": {}}, "a": []} "#;
    let first = parse_json(text).unwrap();
    let second = parse_json(text).unwrap();
    assert_eq!(format!("{:?}", first), format!("{:?}", second));
    let bad = r#"{"a": [1, ?]}"#;
    assert_eq!(
        format!("{:?}", parse_json(bad).unwrap_err()),
        format!("{:?}", parse_json(bad).unwrap_err())
    );
}

#[test]
fn the_same_parser_reads_values_one_after_another() {
    let mut parser = JSONParser::new("12 \"ab\" [3]");
    assert_eq!(parser.parse_number().unwrap().value, "12");
    assert_eq!(parser.current_char(), Some('2'));
    assert_eq!(parser.next_char(), Some(' '));
    parser.skip_spaces();
    assert_eq!(parser.current_position(), 3);
    assert_eq!(parser.parse_string().unwrap().value, "ab");
    assert_eq!(parser.current_char(), Some('"'));
    parser.next_char();
    parser.skip_spaces();
    let a = parser.parse_array().unwrap();
    assert_eq!((a.start, a.end), (8, 10));
    assert_eq!(parser.current_char(), Some(']'));
    assert_eq!(parser.next_char(), None);
    assert_eq!(parser.next_char(), None);
    assert_eq!(parser.current_position(), 10);
}

#[test]
fn deep_nesting_needs_no_call_depth() {
    let depth = 200_000;
    let mut text = String::new();
    for _ in 0..depth {
        text.push('[');
    }
    for _ in 0..depth {
        text.push(']');
    }
    let token = parse_json(&text).unwrap();
    let mut levels = 0;
    let mut current = &token;
    loop {
        match current {
            Token::Array(a) => {
                levels += 1;
                assert_eq!(a.start + a.end, 2 * depth - 1);
                if a.values.is_empty() {
                    break;
                }
                assert_eq!(a.values.len(), 1);
                current = &a.values[0];
            }
            _ => panic!("only arrays were written"),
        }
    }
    assert_eq!(levels, depth);
    // the tree is left alone: taking it apart level by level is the caller's business
    std::mem::forget(token);
}

#[test]
fn deep_nesting_of_objects_fails_where_the_text_ends() {
    let depth = 100_000;
    let mut text = String::new();
    for _ in 0..depth {
        text.push_str("{\"k\":");
    }
    assert!(matches!(parse_json(&text), Err(pjson_parser::ParserError::UnexpectedEndError)));
}
