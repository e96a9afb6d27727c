use ujson::from_str;
use ujson::JsonValue;
use ujson::ParserError;

fn number_value(v: &JsonValue) -> f64 {
    match v {
        JsonValue::Number(t) => std::str::from_utf8(t).unwrap().parse::<f64>().unwrap(),
        other => panic!("expected a number, got {:?}", other),
    }
}

#[test]
fn parse_scalar_literals() {
    assert_eq!(from_str("true"), Ok(JsonValue::Boolean(true)));
    assert_eq!(from_str("false"), Ok(JsonValue::Boolean(false)));
    assert_eq!(from_str("null"), Ok(JsonValue::Null));
}

#[test]
fn parse_numbers() {
    assert_eq!(number_value(&from_str("123").unwrap()), 123.0);
    assert_eq!(number_value(&from_str("-123").unwrap()), -123.0);
    assert_eq!(number_value(&from_str("0").unwrap()), 0.0);
    assert_eq!(number_value(&from_str("3.25").unwrap()), 3.25);
    assert_eq!(number_value(&from_str("-0.5").unwrap()), -0.5);
}

#[test]
fn parse_rejects_leading_zeros() {
    assert_eq!(from_str("-00000000000001"), Err(ParserError::NoParse(0)));
    assert_eq!(from_str("007"), Err(ParserError::NoParse(0)));
}

#[test]
fn parse_string_consumes_all_bytes() {
    assert_eq!(
        from_str("\"hello\""),
        Ok(JsonValue::String(b"hello".to_vec()))
    );
}

#[test]
fn parse_list() {
    assert_eq!(
        from_str("[1, 2, 3]"),
        Ok(JsonValue::List(vec![
            JsonValue::Number(b"1".to_vec()),
            JsonValue::Number(b"2".to_vec()),
            JsonValue::Number(b"3".to_vec()),
        ]))
    );
}

#[test]
fn parse_object() {
    assert_eq!(
        from_str("{\"key\": \"value\"}"),
        Ok(JsonValue::Object(vec![(
            b"key".to_vec(),
            JsonValue::String(b"value".to_vec())
        )]))
    );
}

#[test]
fn parse_empty_object_and_list() {
    assert_eq!(from_str("{}"), Ok(JsonValue::Object(vec![])));
    assert_eq!(from_str("[]"), Ok(JsonValue::List(vec![])));
    assert_eq!(from_str("{ }"), Ok(JsonValue::Object(vec![])));
    assert_eq!(from_str("[ ]"), Ok(JsonValue::List(vec![])));
}

#[test]
fn parse_is_deterministic() {
    let input = "{\"a\": [1, {\"b\": null}], \"c\": \"d\"}";
    let first = from_str(input);
    let second = from_str(input);
    assert_eq!(first, second);
    assert!(first.is_ok());
}

#[test]
fn parse_rejects_trailing_content() {
    assert_eq!(from_str("123 "), Err(ParserError::NoParse(3)));
    assert_eq!(from_str("truex"), Err(ParserError::NoParse(4)));
    assert_eq!(from_str("\"a\"b"), Err(ParserError::NoParse(3)));
    assert_eq!(from_str(""), Err(ParserError::NoParse(0)));
}

#[test]
fn parse_keeps_duplicate_keys_in_order() {
    let result = from_str("{\"a\": 1, \"a\": 2, \"b\": 3}").unwrap();
    match result {
        JsonValue::Object(pairs) => {
            assert_eq!(pairs.len(), 3);
            assert_eq!(pairs[0].0, b"a".to_vec());
            assert_eq!(number_value(&pairs[0].1), 1.0);
            assert_eq!(pairs[1].0, b"a".to_vec());
            assert_eq!(number_value(&pairs[1].1), 2.0);
            assert_eq!(pairs[2].0, b"b".to_vec());
            assert_eq!(number_value(&pairs[2].1), 3.0);
        },
        other => panic!("expected an object, got {:?}", other),
    }
}

#[test]
fn parse_nested_structures() {
    let result = from_str("[[1], {\"k\": []}, \"s\"]").unwrap();
    assert_eq!(
        result,
        JsonValue::List(vec![
            JsonValue::List(vec![JsonValue::Number(b"1".to_vec())]),
            JsonValue::Object(vec![(b"k".to_vec(), JsonValue::List(vec![]))]),
            JsonValue::String(b"s".to_vec()),
        ])
    );
}

#[test]
fn parse_whitespace_around_punctuation() {
    let result = from_str("{ \"a\" : 1 , \"b\" : [ 2 , 3 ] }").unwrap();
    assert_eq!(
        result,
        JsonValue::Object(vec![
            (b"a".to_vec(), JsonValue::Number(b"1".to_vec())),
            (
                b"b".to_vec(),
                JsonValue::List(vec![
                    JsonValue::Number(b"2".to_vec()),
                    JsonValue::Number(b"3".to_vec()),
                ])
            ),
        ])
    );
}

#[test]
fn parse_no_trailing_separator() {
    assert_eq!(from_str("[1,]"), Err(ParserError::NoParse(0)));
    assert_eq!(from_str("{\"a\": 1,}"), Err(ParserError::NoParse(0)));
}

#[test]
fn parse_failure_offset_is_where_parsing_stopped() {
    let err = from_str("xyz").unwrap_err();
    assert_eq!(err, ParserError::NoParse(0));
    assert_eq!(err.offset(), 0);
}
