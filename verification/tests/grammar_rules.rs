use ujson::boolean;
use ujson::decimal_part_number;
use ujson::json_value;
use ujson::key_value_pair;
use ujson::null;
use ujson::number;
use ujson::string;
use ujson::whole_part_number;
use ujson::JsonValue;
use ujson::ParserError;
use ujson::Span;
use ujson::State;

fn number_text(v: JsonValue) -> String {
    match v {
        JsonValue::Number(t) => String::from_utf8(t).unwrap(),
        other => panic!("expected a number, got {:?}", other),
    }
}

#[test]
fn test_string() {
    let input = "\"hello\"";
    let state = State { current: 0 };
    let result = string(input, state).unwrap();
    assert_eq!(
        result,
        (JsonValue::String(b"hello".to_vec()), State { current: 7 })
    );
}

#[test]
fn test_number() {
    let state = State { current: 0 };
    let result = number("123", state).unwrap();
    assert_eq!(result.1, State { current: 3 });
    assert_eq!(number_text(result.0).parse::<f64>().unwrap(), 123.0);

    let result = number("-123", state).unwrap();
    assert_eq!(result.1, State { current: 4 });
    assert_eq!(number_text(result.0).parse::<f64>().unwrap(), -123.0);

    let result = number("-00000000000001", state).unwrap_err();
    assert_eq!(result, ParserError::NoParse(0));
}

#[test]
fn test_whole_part_number() {
    let input = "123";
    let state = State { current: 0 };
    let result = whole_part_number(input, state).unwrap();
    assert_eq!(result, (Span { start: 0, end: 3 }, State { current: 3 }));
    assert_eq!(&input[result.0.start..result.0.end], "123");

    let input = "-123";
    let result = whole_part_number(input, state).unwrap();
    assert_eq!(result, (Span { start: 0, end: 4 }, State { current: 4 }));
    assert_eq!(&input[result.0.start..result.0.end], "-123");

    let input = "0";
    let result = whole_part_number(input, state).unwrap();
    assert_eq!(result, (Span { start: 0, end: 1 }, State { current: 1 }));
    assert_eq!(&input[result.0.start..result.0.end], "0");

    let input = "-00000000000001";
    let result = whole_part_number(input, state).unwrap_err();
    assert_eq!(result, ParserError::NoParse(0));
}

#[test]
fn test_decimal_part_number() {
    let input = ".123";
    let state = State { current: 0 };
    let result = decimal_part_number(input, state).unwrap();
    assert_eq!(result, (Span { start: 0, end: 4 }, State { current: 4 }));
    assert_eq!(&input[result.0.start..result.0.end], ".123");

    let input = ".00000000000001";
    let result = decimal_part_number(input, state).unwrap();
    assert_eq!(result, (Span { start: 0, end: 15 }, State { current: 15 }));
    assert_eq!(&input[result.0.start..result.0.end], ".00000000000001");
}

#[test]
fn test_boolean() {
    let state = State { current: 0 };
    let result = boolean("true", state).unwrap();
    assert_eq!(result, (JsonValue::Boolean(true), State { current: 4 }));

    let result = boolean("false", state).unwrap();
    assert_eq!(result, (JsonValue::Boolean(false), State { current: 5 }));
}

#[test]
fn test_null() {
    let state = State { current: 0 };
    let result = null("null", state).unwrap();
    assert_eq!(result, (JsonValue::Null, State { current: 4 }));
}

#[test]
fn test_json_value() {
    let state = State { current: 0 };

    let result = json_value("\"hello\"", state).unwrap();
    assert_eq!(
        result,
        (JsonValue::String(b"hello".to_vec()), State { current: 7 })
    );

    let result = json_value("123", state).unwrap();
    assert_eq!(result.1, State { current: 3 });
    assert_eq!(number_text(result.0).parse::<f64>().unwrap(), 123.0);

    let result = json_value("true", state).unwrap();
    assert_eq!(result, (JsonValue::Boolean(true), State { current: 4 }));

    let result = json_value("null", state).unwrap();
    assert_eq!(result, (JsonValue::Null, State { current: 4 }));

    let input = "[1, 2, 3]";
    let result = json_value(input, state).unwrap();
    assert_eq!(
        result,
        (
            JsonValue::List(vec![
                JsonValue::Number(b"1".to_vec()),
                JsonValue::Number(b"2".to_vec()),
                JsonValue::Number(b"3".to_vec()),
            ]),
            State {
                current: input.len()
            }
        )
    );

    let input = "{\"key\": \"value\"}";
    let result = json_value(input, state).unwrap();
    assert_eq!(
        result,
        (
            JsonValue::Object(vec![(
                b"key".to_vec(),
                JsonValue::String(b"value".to_vec())
            )]),
            State {
                current: input.len()
            }
        )
    );
}

#[test]
fn test_string_unterminated() {
    let result = string("\"abc", State { current: 0 }).unwrap_err();
    assert_eq!(result, ParserError::NoParse(4));

    let result = string("abc", State { current: 0 }).unwrap_err();
    assert_eq!(result, ParserError::NoParse(0));
}

#[test]
fn test_string_backslash_is_ordinary() {
    let input = "\"a\\nb\"";
    let result = string(input, State { current: 0 }).unwrap();
    assert_eq!(
        result,
        (
            JsonValue::String(b"a\\nb".to_vec()),
            State {
                current: input.len()
            }
        )
    );
}

#[test]
fn test_number_with_decimal_part() {
    let state = State { current: 0 };
    let result = number("1.5", state).unwrap();
    assert_eq!(result.1, State { current: 3 });
    assert_eq!(number_text(result.0).parse::<f64>().unwrap(), 1.5);

    let result = number("1.", state).unwrap();
    assert_eq!(result.1, State { current: 2 });
    assert_eq!(number_text(result.0), "1.");

    let result = number("0", state).unwrap();
    assert_eq!(result.1, State { current: 1 });
    assert_eq!(number_text(result.0), "0");
}

#[test]
fn test_key_value_pair() {
    let input = "\"key\" : true";
    let result = key_value_pair(input, State { current: 0 }).unwrap();
    assert_eq!(
        result,
        (
            (b"key".to_vec(), JsonValue::Boolean(true)),
            State {
                current: input.len()
            }
        )
    );

    let result = key_value_pair("\"key\" true", State { current: 0 }).unwrap_err();
    assert_eq!(result, ParserError::NoParse(6));
}

#[test]
fn test_boolean_rejects_other_text() {
    let result = boolean("xyz", State { current: 0 }).unwrap_err();
    assert_eq!(result, ParserError::NoParse(0));

    let result = null("nul", State { current: 0 }).unwrap_err();
    assert_eq!(result, ParserError::NoParse(0));
}
