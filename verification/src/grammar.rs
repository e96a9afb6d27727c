//! The JSON grammar, built from the engine's primitives, and the parsed
//! value tree.

use vstd::prelude::*;
use vstd::string::StringSliceAdditionalSpecFns;

use crate::cursor::ByteClass;
use crate::cursor::ParserError;
use crate::cursor::Span;
use crate::cursor::State;
use crate::engine::fail;
use crate::engine::merge_spans;
use crate::engine::optional;
use crate::engine::or;
use crate::engine::pat;
use crate::engine::pat_ws;
use crate::engine::span_text;
use crate::engine::take_while;
use crate::model::Elem;
use crate::model::elem_as_pair;
use crate::model::elem_as_value;
use crate::model::elem_matches_kind;
use crate::model::ElementKind;
use crate::model::Json;
use crate::model::lemma_decimal_part_bounds;
use crate::model::lemma_elem_bounds;
use crate::model::lemma_empty_pat;
use crate::model::lemma_one_byte_pat;
use crate::model::lemma_pat_ws_bounds;
use crate::model::lemma_scan_end;
use crate::model::lemma_spaced_by_bounds;
use crate::model::lemma_spaced_by_kind;
use crate::model::lemma_string_bounds;
use crate::model::lemma_whole_part_bounds;
use crate::model::lit_comma;
use crate::model::lit_false;
use crate::model::lit_lbrace;
use crate::model::lit_lbracket;
use crate::model::lit_null;
use crate::model::lit_rbrace;
use crate::model::lit_rbracket;
use crate::model::lit_true;
use crate::model::span_result_matches;
use crate::model::spec_boolean;
use crate::model::spec_decimal_part;
use crate::model::spec_elem;
use crate::model::spec_from_str;
use crate::model::spec_key_value;
use crate::model::spec_list;
use crate::model::spec_null;
use crate::model::spec_number;
use crate::model::spec_object;
use crate::model::spec_spaced_by;
use crate::model::spec_spaced_by_rest;
use crate::model::spec_string;
use crate::model::spec_value;
use crate::model::spec_whole_part;
use crate::model::step_pos;

verus! {

/// The parsed JSON tree.  String and number values carry the bytes of
/// the matched text (number text is converted to a float by callers
/// outside the library).  An object keeps its key-value pairs in input
/// order, duplicates included.
#[derive(Debug, PartialEq)]
pub enum JsonValue {
    String(Vec<u8>),
    Number(Vec<u8>),
    Object(Vec<(Vec<u8>, JsonValue)>),
    List(Vec<JsonValue>),
    Boolean(bool),
    Null,
}

/// The mathematical tree a [`JsonValue`] stands for.
pub open spec fn json_of(v: JsonValue) -> Json
    decreases v,
{
    match v {
        JsonValue::String(s) => Json::Str(s@),
        JsonValue::Number(s) => Json::Num(s@),
        JsonValue::Boolean(b) => Json::Bool(b),
        JsonValue::Null => Json::Null,
        JsonValue::Object(pairs) => Json::Obj(pairs_view(pairs@)),
        JsonValue::List(elems) => Json::Arr(values_view(elems@)),
    }
}

/// The mathematical counterpart of a sequence of key-value pairs.
pub open spec fn pairs_view(ps: Seq<(Vec<u8>, JsonValue)>) -> Seq<(Seq<u8>, Json)>
    decreases ps,
{
    Seq::new(
        ps.len(),
        |i: int|
            if 0 <= i < ps.len() {
                (ps[i].0@, json_of(ps[i].1))
            } else {
                arbitrary()
            },
    )
}

/// The mathematical counterpart of a sequence of values.
pub open spec fn values_view(vs: Seq<JsonValue>) -> Seq<Json>
    decreases vs,
{
    Seq::new(
        vs.len(),
        |i: int|
            if 0 <= i < vs.len() {
                json_of(vs[i])
            } else {
                arbitrary()
            },
    )
}

impl View for JsonValue {
    type V = Json;

    open spec fn view(&self) -> Json {
        json_of(*self)
    }
}

/// One element of a separated repetition: an object member (key and
/// value) or a plain list element.
#[derive(Debug, PartialEq)]
pub enum Element {
    Pair(Vec<u8>, JsonValue),
    Value(JsonValue),
}

impl View for Element {
    type V = Elem;

    open spec fn view(&self) -> Elem {
        match self {
            Element::Pair(k, v) => Elem::Pair(k@, json_of(*v)),
            Element::Value(v) => Elem::Value(json_of(*v)),
        }
    }
}

/// The executable result `r` is exactly what the specification result
/// `sr` prescribes: success yields the prescribed tree and cursor,
/// failure the prescribed offset.
pub open spec fn value_result_matches(
    r: Result<(JsonValue, State), ParserError>,
    sr: Result<(Json, nat), nat>,
) -> bool {
    match (r, sr) {
        (Ok((v, st)), Ok((j, n))) => v@ == j && st.current == n,
        (Err(ParserError::NoParse(o)), Err(e)) => o == e,
        _ => false,
    }
}

/// The executable parse result `r` is exactly what [`spec_from_str`]
/// prescribes.
pub open spec fn parse_result_matches(
    r: Result<JsonValue, ParserError>,
    sr: Result<Json, nat>,
) -> bool {
    match (r, sr) {
        (Ok(v), Ok(j)) => v@ == j,
        (Err(ParserError::NoParse(o)), Err(e)) => o == e,
        _ => false,
    }
}

/// The byte sequences of the string literals the grammar matches
/// against, made concrete.  (A string literal's contents are opaque
/// until revealed.)
pub proof fn lemma_literal_bytes()
    ensures
        "\"".spec_bytes() == seq![('"' as u8)],
        "-".spec_bytes() == seq![('-' as u8)],
        "".spec_bytes() == Seq::<u8>::empty(),
        ".".spec_bytes() == seq![('.' as u8)],
        ":".spec_bytes() == seq![(':' as u8)],
        ",".spec_bytes() == lit_comma(),
        "{".spec_bytes() == lit_lbrace(),
        "}".spec_bytes() == lit_rbrace(),
        "[".spec_bytes() == lit_lbracket(),
        "]".spec_bytes() == lit_rbracket(),
        "true".spec_bytes() == lit_true(),
        "false".spec_bytes() == lit_false(),
        "null".spec_bytes() == lit_null(),
{
    broadcast use vstd::utf8::is_ascii_chars_encode_utf8;

    reveal_strlit("\"");
    reveal_strlit("-");
    reveal_strlit("");
    reveal_strlit(".");
    reveal_strlit(":");
    reveal_strlit(",");
    reveal_strlit("{");
    reveal_strlit("}");
    reveal_strlit("[");
    reveal_strlit("]");
    reveal_strlit("true");
    reveal_strlit("false");
    reveal_strlit("null");
    assert(vstd::utf8::is_ascii_chars("\""@));
    assert("\"".spec_bytes() =~= seq![('"' as u8)]);
    assert(vstd::utf8::is_ascii_chars("-"@));
    assert("-".spec_bytes() =~= seq![('-' as u8)]);
    assert(vstd::utf8::is_ascii_chars(""@));
    assert("".spec_bytes() =~= Seq::<u8>::empty());
    assert(vstd::utf8::is_ascii_chars("."@));
    assert(".".spec_bytes() =~= seq![('.' as u8)]);
    assert(vstd::utf8::is_ascii_chars(":"@));
    assert(":".spec_bytes() =~= seq![(':' as u8)]);
    assert(vstd::utf8::is_ascii_chars(","@));
    assert(",".spec_bytes() =~= lit_comma());
    assert(vstd::utf8::is_ascii_chars("{"@));
    assert("{".spec_bytes() =~= lit_lbrace());
    assert(vstd::utf8::is_ascii_chars("}"@));
    assert("}".spec_bytes() =~= lit_rbrace());
    assert(vstd::utf8::is_ascii_chars("["@));
    assert("[".spec_bytes() =~= lit_lbracket());
    assert(vstd::utf8::is_ascii_chars("]"@));
    assert("]".spec_bytes() =~= lit_rbracket());
    assert(vstd::utf8::is_ascii_chars("true"@));
    assert("true".spec_bytes() =~= lit_true());
    assert(vstd::utf8::is_ascii_chars("false"@));
    assert("false".spec_bytes() =~= lit_false());
    assert(vstd::utf8::is_ascii_chars("null"@));
    assert("null".spec_bytes() =~= lit_null());
}

/// A JSON string: a double quote, a greedy scan up to the next double
/// quote, and the closing quote.  No escape decoding: a backslash is an
/// ordinary byte.  The value carries the bytes between the quotes.
pub fn string(input: &str, state: State) -> (r: Result<(JsonValue, State), ParserError>)
    requires
        state.current <= input.spec_bytes().len(),
    ensures
        value_result_matches(r, spec_string(input.spec_bytes(), state.current as nat)),
{
    let ghost s = input.spec_bytes();
    let ghost pos = state.current as nat;
    proof {
        lemma_literal_bytes();
        lemma_one_byte_pat(s, pos, '"' as u8);
    }
    let (_q1, st1) = match pat("\"", input, state) {
        Ok(x) => x,
        Err(e) => return Err(e),
    };
    let (body, st2) = match take_while(ByteClass::NotQuote, input, st1) {
        Ok(x) => x,
        Err(e) => return Err(e),
    };
    proof {
        lemma_scan_end(s, st1.current as nat, ByteClass::NotQuote);
        lemma_one_byte_pat(s, st2.current as nat, '"' as u8);
    }
    let (_q2, st3) = match pat("\"", input, st2) {
        Ok(x) => x,
        Err(e) => return Err(e),
    };
    Ok((JsonValue::String(span_text(input, body)), st3))
}

/// The integer part of a number: an optional minus sign and a greedy
/// digit run, fused into one span.  An empty digit run, or a run of two
/// or more digits starting with zero, is rejected, with the failure
/// unwound to the offset where the number began.
pub fn whole_part_number(input: &str, state: State) -> (r: Result<(Span, State), ParserError>)
    requires
        state.current <= input.spec_bytes().len(),
    ensures
        span_result_matches(
            r,
            spec_whole_part(input.spec_bytes(), state.current as nat),
        ),
{
    let ghost s = input.spec_bytes();
    let ghost pos = state.current as nat;
    proof {
        lemma_literal_bytes();
        lemma_one_byte_pat(s, pos, '-' as u8);
        lemma_empty_pat(s, pos);
    }
    let (sign, st1) = match or(pat("-", input, state), pat("", input, state)) {
        Ok(x) => x,
        Err(e) => return Err(e),
    };
    let (digits, st2) = match take_while(ByteClass::Digit, input, st1) {
        Ok(x) => x,
        Err(e) => return Err(e),
    };
    proof {
        lemma_scan_end(s, st1.current as nat, ByteClass::Digit);
    }
    let dlen = digits.end - digits.start;
    let slen = sign.end - sign.start;
    if dlen == 0 {
        fail(Some(slen), st2)
    } else if dlen > 1 && byte_at(input, digits.start) == ('0' as u8) {
        fail(Some(dlen + slen), st2)
    } else {
        Ok((merge_spans(sign, digits), st2))
    }
}

/// The byte at `i`, read through the string's byte view.
fn byte_at(input: &str, i: usize) -> (r: u8)
    requires
        i < input.spec_bytes().len(),
    ensures
        r == input.spec_bytes()[i as int],
{
    let b = input.as_bytes();
    b[i]
}

/// The fractional part of a number: a dot and a greedy digit run (which
/// may be empty), fused into one span.
pub fn decimal_part_number(input: &str, state: State) -> (r: Result<(Span, State), ParserError>)
    requires
        state.current <= input.spec_bytes().len(),
    ensures
        span_result_matches(
            r,
            spec_decimal_part(input.spec_bytes(), state.current as nat),
        ),
{
    let ghost s = input.spec_bytes();
    let ghost pos = state.current as nat;
    proof {
        lemma_literal_bytes();
        lemma_one_byte_pat(s, pos, '.' as u8);
    }
    let (dot, st1) = match pat(".", input, state) {
        Ok(x) => x,
        Err(e) => return Err(e),
    };
    let (digits, st2) = match take_while(ByteClass::Digit, input, st1) {
        Ok(x) => x,
        Err(e) => return Err(e),
    };
    Ok((merge_spans(dot, digits), st2))
}

/// A JSON number: the integer part, then optionally the fractional
/// part, the two spans fused; the value carries the matched text.
pub fn number(input: &str, state: State) -> (r: Result<(JsonValue, State), ParserError>)
    requires
        state.current <= input.spec_bytes().len(),
    ensures
        value_result_matches(r, spec_number(input.spec_bytes(), state.current as nat)),
{
    let ghost s = input.spec_bytes();
    let ghost pos = state.current as nat;
    proof {
        lemma_whole_part_bounds(s, pos);
    }
    let (whole, st1) = match whole_part_number(input, state) {
        Ok(x) => x,
        Err(e) => return Err(e),
    };
    proof {
        lemma_decimal_part_bounds(s, st1.current as nat);
    }
    let dec_r = decimal_part_number(input, st1);
    let (dec_opt, st2) = match optional(dec_r, st1) {
        Ok(x) => x,
        Err(e) => return Err(e),
    };
    match dec_opt {
        Some(dec) => {
            let sp = merge_spans(whole, dec);
            Ok((JsonValue::Number(span_text(input, sp)), st2))
        },
        None => Ok((JsonValue::Number(span_text(input, whole)), st2)),
    }
}

/// A JSON boolean: the literal `true`, or else the literal `false`.
pub fn boolean(input: &str, state: State) -> (r: Result<(JsonValue, State), ParserError>)
    requires
        state.current <= input.spec_bytes().len(),
    ensures
        value_result_matches(r, spec_boolean(input.spec_bytes(), state.current as nat)),
{
    proof {
        lemma_literal_bytes();
    }
    let first = match pat("true", input, state) {
        Ok((_sp, st)) => Ok((JsonValue::Boolean(true), st)),
        Err(e) => Err(e),
    };
    let second = match pat("false", input, state) {
        Ok((_sp, st)) => Ok((JsonValue::Boolean(false), st)),
        Err(e) => Err(e),
    };
    or(first, second)
}

/// The JSON literal `null`.
pub fn null(input: &str, state: State) -> (r: Result<(JsonValue, State), ParserError>)
    requires
        state.current <= input.spec_bytes().len(),
    ensures
        value_result_matches(r, spec_null(input.spec_bytes(), state.current as nat)),
{
    proof {
        lemma_literal_bytes();
    }
    match pat("null", input, state) {
        Ok((_sp, st)) => Ok((JsonValue::Null, st)),
        Err(e) => Err(e),
    }
}

/// The mathematical counterpart of a sequence of repetition elements.
pub open spec fn elems_view(v: Seq<Element>) -> Seq<Elem> {
    Seq::new(v.len(), |i: int| v[i]@)
}

/// The executable result `r` is exactly what the specification result
/// `sr` prescribes, element for element.
pub open spec fn elems_result_matches(
    r: Result<(Vec<Element>, State), ParserError>,
    sr: Result<(Seq<Elem>, nat), nat>,
) -> bool {
    match (r, sr) {
        (Ok((v, st)), Ok((es, n))) => elems_view(v@) == es && st.current == n,
        (Err(ParserError::NoParse(o)), Err(e)) => o == e,
        _ => false,
    }
}

/// The executable result `r` is exactly what the specification result
/// `sr` prescribes for a single repetition element.
pub open spec fn element_result_matches(
    r: Result<(Element, State), ParserError>,
    sr: Result<(Elem, nat), nat>,
) -> bool {
    match (r, sr) {
        (Ok((e, st)), Ok((se, n))) => e@ == se && st.current == n,
        (Err(ParserError::NoParse(o)), Err(e)) => o == e,
        _ => false,
    }
}

/// The executable result `r` is exactly what the specification result
/// `sr` prescribes for a key-value pair.
pub open spec fn pair_result_matches(
    r: Result<((Vec<u8>, JsonValue), State), ParserError>,
    sr: Result<((Seq<u8>, Json), nat), nat>,
) -> bool {
    match (r, sr) {
        (Ok(((k, v), st)), Ok(((sk, sv), n))) => k@ == sk && v@ == sv && st.current == n,
        (Err(ParserError::NoParse(o)), Err(e)) => o == e,
        _ => false,
    }
}

/// A key-value pair: a string key, a whitespace-trimmed colon, then a
/// value.
pub fn key_value_pair(input: &str, state: State) -> (r: Result<
    ((Vec<u8>, JsonValue), State),
    ParserError,
>)
    requires
        state.current <= input.spec_bytes().len(),
    ensures
        pair_result_matches(r, spec_key_value(input.spec_bytes(), state.current as nat)),
    decreases input.spec_bytes().len() - state.current, 0nat,
{
    let ghost s = input.spec_bytes();
    let ghost pos = state.current as nat;
    proof {
        lemma_literal_bytes();
        lemma_string_bounds(s, pos);
    }
    let (key_value, st1) = match string(input, state) {
        Ok(x) => x,
        Err(e) => return Err(e),
    };
    proof {
        lemma_pat_ws_bounds(s, st1.current as nat, seq![(':' as u8)]);
    }
    let (_colon, st2) = match pat_ws(":", input, st1) {
        Ok(x) => x,
        Err(e) => return Err(e),
    };
    let (value, st3) = match json_value(input, st2) {
        Ok(x) => x,
        Err(e) => return Err(e),
    };
    let key = match key_value {
        JsonValue::String(k) => k,
        _ => vstd::pervasive::unreached(),
    };
    Ok(((key, value), st3))
}

/// One element of a separated repetition, as `kind` selects: an object
/// member or a plain value.
fn element(kind: ElementKind, input: &str, state: State) -> (r: Result<
    (Element, State),
    ParserError,
>)
    requires
        state.current <= input.spec_bytes().len(),
    ensures
        element_result_matches(r, spec_elem(input.spec_bytes(), state.current as nat, kind)),
    decreases input.spec_bytes().len() - state.current, 3nat,
{
    match kind {
        ElementKind::Pair => match key_value_pair(input, state) {
            Ok(((k, v), st)) => Ok((Element::Pair(k, v), st)),
            Err(e) => Err(e),
        },
        ElementKind::Value => match json_value(input, state) {
            Ok((v, st)) => Ok((Element::Value(v), st)),
            Err(e) => Err(e),
        },
    }
}

/// The repetition's tail: as many `separator, element` steps as
/// succeed, appended to `elems`; returns the state after the last
/// element taken.  A separator after which no element follows is not
/// consumed.
fn spaced_by_tail(
    kind: ElementKind,
    sep: &str,
    input: &str,
    state: State,
    elems: &mut Vec<Element>,
) -> (r: State)
    requires
        state.current <= input.spec_bytes().len(),
        sep.spec_bytes().len() > 0,
    ensures
        ({
            let (rt, re) = spec_spaced_by_rest(
                input.spec_bytes(),
                state.current as nat,
                kind,
                sep.spec_bytes(),
            );
            elems_view(final(elems)@) == elems_view(old(elems)@) + rt && r.current == re
        }),
    decreases input.spec_bytes().len() - state.current, 0nat,
{
    let ghost s = input.spec_bytes();
    let ghost pos = state.current as nat;
    let ghost sepb = sep.spec_bytes();
    proof {
        lemma_pat_ws_bounds(s, pos, sepb);
    }
    let sep_r = pat_ws(sep, input, state);
    match sep_r {
        Err(_) => {
            proof {
                assert(elems_view(elems@) =~= elems_view(elems@) + Seq::<Elem>::empty());
            }
            state
        },
        Ok((_sp, st_sep)) => {
            proof {
                lemma_elem_bounds(s, st_sep.current as nat, kind);
            }
            match element(kind, input, st_sep) {
                Err(_) => {
                    proof {
                        assert(elems_view(elems@) =~= elems_view(elems@) + Seq::<Elem>::empty());
                    }
                    state
                },
                Ok((el, st_el)) => {
                    let ghost el_view = el@;
                    let ghost before = elems@;
                    elems.push(el);
                    proof {
                        assert(elems_view(elems@) =~= elems_view(before) + seq![el_view]);
                    }
                    let ghost mid = elems@;
                    let r2 = spaced_by_tail(kind, sep, input, st_el, elems);
                    proof {
                        let (rt2, _re2) = spec_spaced_by_rest(s, st_el.current as nat, kind, sepb);
                        assert(step_pos(st_sep.current as nat, s.len(), st_el.current as nat)
                            == st_el.current as nat);
                        assert((elems_view(before) + seq![el_view]) + rt2 =~= elems_view(before) + (
                        seq![el_view] + rt2));
                    }
                    r2
                },
            }
        },
    }
}

/// Separated repetition: one element, then repeatedly a separator
/// followed by another element.  Fails only when the very first element
/// fails; a trailing separator is never consumed.
pub fn spaced_by(kind: ElementKind, sep: &str, input: &str, state: State) -> (r: Result<
    (Vec<Element>, State),
    ParserError,
>)
    requires
        state.current <= input.spec_bytes().len(),
        sep.spec_bytes().len() > 0,
    ensures
        elems_result_matches(
            r,
            spec_spaced_by(input.spec_bytes(), state.current as nat, kind, sep.spec_bytes()),
        ),
    decreases input.spec_bytes().len() - state.current, 4nat,
{
    let ghost s = input.spec_bytes();
    let ghost pos = state.current as nat;
    let ghost sepb = sep.spec_bytes();
    proof {
        lemma_elem_bounds(s, pos, kind);
    }
    let (first, st1) = match element(kind, input, state) {
        Ok(x) => x,
        Err(e) => return Err(e),
    };
    let ghost first_view = first@;
    let mut elems: Vec<Element> = Vec::new();
    elems.push(first);
    proof {
        assert(elems_view(elems@) =~= seq![first_view]);
        assert(step_pos(pos, s.len(), st1.current as nat) == st1.current as nat);
    }
    let st_end = spaced_by_tail(kind, sep, input, st1, &mut elems);
    proof {
        let (rt, _re) = spec_spaced_by_rest(s, st1.current as nat, kind, sepb);
        assert(seq![first_view] + rt =~= elems_view(elems@));
    }
    Ok((elems, st_end))
}

/// Extracts the key-value pairs from elements known to be pairs.
fn elements_to_pairs(elems: Vec<Element>) -> (r: Vec<(Vec<u8>, JsonValue)>)
    requires
        forall|i: int| 0 <= i < elems@.len() ==> elems@[i] is Pair,
    ensures
        r@.len() == elems@.len(),
        forall|i: int|
            0 <= i < r@.len() ==> (#[trigger] r@[i]).0@ == elem_as_pair(elems@[i]@).0 && r@[i].1@
                == elem_as_pair(elems@[i]@).1,
{
    let ghost orig = elems@;
    let mut rest = elems;
    let mut out: Vec<(Vec<u8>, JsonValue)> = Vec::new();
    while rest.len() > 0
        invariant
            out@.len() + rest@.len() == orig.len(),
            forall|j: int| 0 <= j < rest@.len() ==> rest@[j] == orig[out@.len() + j],
            forall|i: int| 0 <= i < orig.len() ==> orig[i] is Pair,
            forall|i: int|
                0 <= i < out@.len() ==> (#[trigger] out@[i]).0@ == elem_as_pair(orig[i]@).0
                    && out@[i].1@ == elem_as_pair(orig[i]@).1,
        decreases rest@.len(),
    {
        let e = rest.remove(0);
        match e {
            Element::Pair(k, v) => {
                out.push((k, v));
            },
            Element::Value(_) => {
                proof {
                    assert(false);
                }
            },
        }
    }
    out
}

/// Extracts the values from elements known to be plain values.
fn elements_to_values(elems: Vec<Element>) -> (r: Vec<JsonValue>)
    requires
        forall|i: int| 0 <= i < elems@.len() ==> elems@[i] is Value,
    ensures
        r@.len() == elems@.len(),
        forall|i: int| 0 <= i < r@.len() ==> (#[trigger] r@[i])@ == elem_as_value(elems@[i]@),
{
    let ghost orig = elems@;
    let mut rest = elems;
    let mut out: Vec<JsonValue> = Vec::new();
    while rest.len() > 0
        invariant
            out@.len() + rest@.len() == orig.len(),
            forall|j: int| 0 <= j < rest@.len() ==> rest@[j] == orig[out@.len() + j],
            forall|i: int| 0 <= i < orig.len() ==> orig[i] is Value,
            forall|i: int| 0 <= i < out@.len() ==> (#[trigger] out@[i])@ == elem_as_value(orig[i]@),
        decreases rest@.len(),
    {
        let e = rest.remove(0);
        match e {
            Element::Value(v) => {
                out.push(v);
            },
            Element::Pair(_, _) => {
                proof {
                    assert(false);
                }
            },
        }
    }
    out
}

/// A JSON object: a whitespace-trimmed `{`, a possibly empty separated
/// repetition of key-value pairs, and a whitespace-trimmed `}`.  A
/// failing first pair is taken as "no pairs", so `{}` parses.
pub fn object(input: &str, state: State) -> (r: Result<(JsonValue, State), ParserError>)
    requires
        state.current <= input.spec_bytes().len(),
    ensures
        value_result_matches(r, spec_object(input.spec_bytes(), state.current as nat)),
    decreases input.spec_bytes().len() - state.current, 1nat,
{
    let ghost s = input.spec_bytes();
    let ghost pos = state.current as nat;
    proof {
        lemma_literal_bytes();
        lemma_pat_ws_bounds(s, pos, lit_lbrace());
    }
    let (_lb, st1) = match pat_ws("{", input, state) {
        Ok(x) => x,
        Err(e) => return Err(e),
    };
    proof {
        lemma_spaced_by_bounds(s, st1.current as nat, ElementKind::Pair, lit_comma());
        lemma_spaced_by_kind(s, st1.current as nat, ElementKind::Pair, lit_comma());
    }
    let rep = spaced_by(ElementKind::Pair, ",", input, st1);
    let (opt_elems, st2) = match optional(rep, st1) {
        Ok(x) => x,
        Err(e) => return Err(e),
    };
    let elems = match opt_elems {
        Some(v) => v,
        None => Vec::new(),
    };
    let ghost es = match spec_spaced_by(s, st1.current as nat, ElementKind::Pair, lit_comma()) {
        Ok((es, _)) => es,
        Err(_) => Seq::<Elem>::empty(),
    };
    proof {
        assert(elems_view(elems@) == es);
        assert forall|i: int| 0 <= i < elems@.len() implies elems@[i] is Pair by {
            assert(elems_view(elems@)[i] == elems@[i]@);
            assert(elem_matches_kind(es[i], ElementKind::Pair));
        }
        lemma_pat_ws_bounds(s, st2.current as nat, lit_rbrace());
    }
    let (_rb, st3) = match pat_ws("}", input, st2) {
        Ok(x) => x,
        Err(e) => return Err(e),
    };
    let pairs = elements_to_pairs(elems);
    proof {
        assert(pairs_view(pairs@) =~= es.map_values(|e: Elem| elem_as_pair(e))) by {
            assert forall|i: int| 0 <= i < pairs@.len() implies pairs_view(pairs@)[i] == es.map_values(
                |e: Elem| elem_as_pair(e),
            )[i] by {
                assert(elems_view(elems@)[i] == elems@[i]@);
            }
        }
    }
    Ok((JsonValue::Object(pairs), st3))
}

/// A JSON list: a whitespace-trimmed `[`, a possibly empty separated
/// repetition of values, and a whitespace-trimmed `]`.  A failing first
/// element is taken as "no elements", so `[]` parses.
pub fn list(input: &str, state: State) -> (r: Result<(JsonValue, State), ParserError>)
    requires
        state.current <= input.spec_bytes().len(),
    ensures
        value_result_matches(r, spec_list(input.spec_bytes(), state.current as nat)),
    decreases input.spec_bytes().len() - state.current, 1nat,
{
    let ghost s = input.spec_bytes();
    let ghost pos = state.current as nat;
    proof {
        lemma_literal_bytes();
        lemma_pat_ws_bounds(s, pos, lit_lbracket());
    }
    let (_lb, st1) = match pat_ws("[", input, state) {
        Ok(x) => x,
        Err(e) => return Err(e),
    };
    proof {
        lemma_spaced_by_bounds(s, st1.current as nat, ElementKind::Value, lit_comma());
        lemma_spaced_by_kind(s, st1.current as nat, ElementKind::Value, lit_comma());
    }
    let rep = spaced_by(ElementKind::Value, ",", input, st1);
    let (opt_elems, st2) = match optional(rep, st1) {
        Ok(x) => x,
        Err(e) => return Err(e),
    };
    let elems = match opt_elems {
        Some(v) => v,
        None => Vec::new(),
    };
    let ghost es = match spec_spaced_by(s, st1.current as nat, ElementKind::Value, lit_comma()) {
        Ok((es, _)) => es,
        Err(_) => Seq::<Elem>::empty(),
    };
    proof {
        assert(elems_view(elems@) == es);
        assert forall|i: int| 0 <= i < elems@.len() implies elems@[i] is Value by {
            assert(elems_view(elems@)[i] == elems@[i]@);
            assert(elem_matches_kind(es[i], ElementKind::Value));
        }
        lemma_pat_ws_bounds(s, st2.current as nat, lit_rbracket());
    }
    let (_rb, st3) = match pat_ws("]", input, st2) {
        Ok(x) => x,
        Err(e) => return Err(e),
    };
    let values = elements_to_values(elems);
    proof {
        assert(values_view(values@) =~= es.map_values(|e: Elem| elem_as_value(e))) by {
            assert forall|i: int| 0 <= i < values@.len() implies values_view(values@)[i]
                == es.map_values(|e: Elem| elem_as_value(e))[i] by {
                assert(elems_view(elems@)[i] == elems@[i]@);
            }
        }
    }
    Ok((JsonValue::List(values), st3))
}

/// A JSON value: the first of string, number, object, list, boolean,
/// null to succeed at the cursor.  The alternatives are pure, so each
/// is simply evaluated from the same cursor and the first success is
/// kept.
pub fn json_value(input: &str, state: State) -> (r: Result<(JsonValue, State), ParserError>)
    requires
        state.current <= input.spec_bytes().len(),
    ensures
        value_result_matches(r, spec_value(input.spec_bytes(), state.current as nat)),
    decreases input.spec_bytes().len() - state.current, 2nat,
{
    let r1 = string(input, state);
    let r2 = number(input, state);
    let r3 = object(input, state);
    let r4 = list(input, state);
    let r5 = boolean(input, state);
    let r6 = null(input, state);
    let r7 = fail::<JsonValue>(None, state);
    or(r1, or(r2, or(r3, or(r4, or(r5, or(r6, r7))))))
}

/// Parses a whole input as one JSON value, from offset zero; trailing
/// unconsumed content is an error at the offset where parsing stopped.
pub fn from_str(input: &str) -> (r: Result<JsonValue, ParserError>)
    ensures
        parse_result_matches(r, spec_from_str(input.spec_bytes())),
{
    let state = State { current: 0 };
    let (value, st) = match json_value(input, state) {
        Ok(x) => x,
        Err(e) => return Err(e),
    };
    if st.current == input.as_bytes().len() {
        Ok(value)
    } else {
        Err(ParserError::NoParse(st.current))
    }
}

} // verus!
