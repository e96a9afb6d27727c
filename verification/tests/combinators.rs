use ujson::bind;
use ujson::fail;
use ujson::optional;
use ujson::or;
use ujson::pat;
use ujson::pat_ws;
use ujson::success;
use ujson::take_while;
use ujson::ByteClass;
use ujson::ParserError;
use ujson::Span;
use ujson::State;

#[test]
fn test_pattern() {
    let input = "hello world";
    let state = State { current: 0 };
    let result = pat("hello", input, state).unwrap();
    assert_eq!(result, (Span { start: 0, end: 5 }, State { current: 5 }));
    assert_eq!(&input[result.0.start..result.0.end], "hello");
}

#[test]
fn test_or() {
    let input = "world";
    let state = State { current: 0 };
    let result = or(pat("hello", input, state), pat("world", input, state)).unwrap();
    assert_eq!(result, (Span { start: 0, end: 5 }, State { current: 5 }));
    assert_eq!(&input[result.0.start..result.0.end], "world");
}

#[test]
fn test_take_while() {
    let input = "hello world";
    let state = State { current: 0 };
    let result = take_while(ByteClass::Alphabetic, input, state).unwrap();
    assert_eq!(result, (Span { start: 0, end: 5 }, State { current: 5 }));
    assert_eq!(&input[result.0.start..result.0.end], "hello");
}

#[test]
fn test_pure() {
    let _input = "world";
    let state = State { current: 0 };
    let result = success("hello", state).unwrap();
    assert_eq!(result, ("hello", State { current: 0 }));
}

#[test]
fn test_bind() {
    let input = "hello world";
    let state = State { current: 0 };
    let result = bind(pat("hello", input, state), |sp: Span, st: State| {
        success(input[sp.start..sp.end].to_uppercase(), st)
    })
    .unwrap();
    assert_eq!(result, ("HELLO".to_string(), State { current: 5 }));
}

#[test]
fn test_pure_fail() {
    let _input = "hello world";
    let state = State { current: 0 };
    let result = fail::<i64>(None, state).unwrap_err();
    assert_eq!(result, ParserError::NoParse(0));

    let state = State { current: 2 };
    let result = fail::<i64>(Some(2), state).unwrap_err();
    assert_eq!(result, ParserError::NoParse(0));
}

#[test]
fn test_optional_success_and_failure() {
    let input = "xy";
    let state = State { current: 0 };
    let result = optional(pat("x", input, state), state).unwrap();
    assert_eq!(result.0, Some(Span { start: 0, end: 1 }));
    assert_eq!(result.1, State { current: 1 });

    let result = optional(pat("z", input, state), state).unwrap();
    assert_eq!(result, (None, State { current: 0 }));
}

#[test]
fn test_pat_ws_trims_both_sides() {
    let input = "  : x";
    let state = State { current: 0 };
    let result = pat_ws(":", input, state).unwrap();
    assert_eq!(result, (Span { start: 2, end: 3 }, State { current: 4 }));

    let result = pat_ws(":", "y", State { current: 0 }).unwrap_err();
    assert_eq!(result, ParserError::NoParse(0));
}

#[test]
fn test_take_while_whitespace_and_digits() {
    let result = take_while(ByteClass::Whitespace, " \tx", State { current: 0 }).unwrap();
    assert_eq!(result, (Span { start: 0, end: 2 }, State { current: 2 }));

    let result = take_while(ByteClass::Digit, "42x", State { current: 0 }).unwrap();
    assert_eq!(result, (Span { start: 0, end: 2 }, State { current: 2 }));

    let result = take_while(ByteClass::Digit, "x42", State { current: 0 }).unwrap();
    assert_eq!(result, (Span { start: 0, end: 0 }, State { current: 0 }));
}

#[test]
fn test_pattern_failure_offset() {
    let input = "hello";
    let result = pat("world", input, State { current: 0 }).unwrap_err();
    assert_eq!(result, ParserError::NoParse(0));
    assert_eq!(result.offset(), 0);

    let result = pat("lo!", input, State { current: 3 }).unwrap_err();
    assert_eq!(result, ParserError::NoParse(3));
    assert_eq!(result.offset(), 3);
}
