//! The library-wide laws, stated and proved over the specification
//! grammar of [`crate::model`].

use vstd::prelude::*;

use crate::cursor::ByteClass;
use crate::cursor::ParserError;
use crate::grammar::parse_result_matches;
use crate::grammar::JsonValue;
use crate::model::class_holds;
use crate::model::is_digit_byte;
use crate::model::is_ws_byte;
use crate::model::lemma_one_byte_pat;
use crate::model::lit_lbrace;
use crate::model::lit_lbracket;
use crate::model::lit_true;
use crate::model::scan_end;
use crate::model::spec_boolean;
use crate::model::spec_from_str;
use crate::model::spec_list;
use crate::model::spec_null;
use crate::model::spec_number;
use crate::model::spec_object;
use crate::model::spec_string;
use crate::model::spec_value;

verus! {

/// Determinism: two parses of the same input yield structurally equal
/// results — equal trees on success, equal offsets on failure.  Any two
/// results of [`crate::from_str`] on inputs with the same bytes satisfy
/// the hypotheses, by that function's contract.
pub proof fn lemma_from_str_deterministic(
    s: Seq<u8>,
    r1: Result<JsonValue, ParserError>,
    r2: Result<JsonValue, ParserError>,
)
    requires
        parse_result_matches(r1, spec_from_str(s)),
        parse_result_matches(r2, spec_from_str(s)),
    ensures
        match (r1, r2) {
            (Ok(v1), Ok(v2)) => v1@ == v2@,
            (Err(e1), Err(e2)) => e1 == e2,
            _ => false,
        },
{
}

/// Full consumption: whenever parsing a whole input succeeds, the value
/// rule consumed every byte of it; a leftover byte is always an error,
/// never silently dropped.
pub proof fn lemma_full_consumption(s: Seq<u8>)
    ensures
        spec_from_str(s) is Ok ==> (spec_value(s, 0) matches Ok((_, n)) && n == s.len()),
{
}

/// A successful string starts with a double quote.
proof fn lemma_string_head(s: Seq<u8>, pos: nat)
    ensures
        spec_string(s, pos) is Ok ==> pos < s.len() && s[pos as int] == ('"' as u8),
{
}

/// A successful number starts with a minus sign or a digit.
proof fn lemma_number_head(s: Seq<u8>, pos: nat)
    ensures
        spec_number(s, pos) is Ok ==> pos < s.len() && (s[pos as int] == ('-' as u8)
            || is_digit_byte(s[pos as int])),
{
    if spec_number(s, pos) is Ok {
        if !(pos < s.len() && s[pos as int] == ('-' as u8)) {
            assert(scan_end(s, pos, ByteClass::Digit) != pos);
            assert(class_holds(ByteClass::Digit, s[pos as int]));
        }
    }
}

/// A successful boolean starts with `t` or `f`.
proof fn lemma_boolean_head(s: Seq<u8>, pos: nat)
    ensures
        spec_boolean(s, pos) is Ok ==> pos < s.len() && (s[pos as int] == ('t' as u8) || s[pos
            as int] == ('f' as u8)),
{
    if spec_boolean(s, pos) is Ok {
        if pos + 4 <= s.len() && s.subrange(pos as int, pos + 4 as int) == lit_true() {
            assert(s.subrange(pos as int, pos + 4 as int)[0] == s[pos as int]);
        } else {
            assert(s.subrange(pos as int, pos + 5 as int)[0] == s[pos as int]);
        }
    }
}

/// A successful null starts with `n`.
proof fn lemma_null_head(s: Seq<u8>, pos: nat)
    ensures
        spec_null(s, pos) is Ok ==> pos < s.len() && s[pos as int] == ('n' as u8),
{
    if spec_null(s, pos) is Ok {
        assert(s.subrange(pos as int, pos + 4 as int)[0] == s[pos as int]);
    }
}

/// A successful object has an opening brace as its first byte after
/// leading whitespace.
proof fn lemma_object_head(s: Seq<u8>, pos: nat)
    ensures
        spec_object(s, pos) is Ok ==> ({
            let a = scan_end(s, pos, ByteClass::Whitespace);
            a < s.len() && s[a as int] == ('{' as u8)
        }),
{
    let a = scan_end(s, pos, ByteClass::Whitespace);
    lemma_one_byte_pat(s, a, '{' as u8);
    assert(lit_lbrace() =~= seq![('{' as u8)]);
}

/// A successful list has an opening bracket as its first byte after
/// leading whitespace.
proof fn lemma_list_head(s: Seq<u8>, pos: nat)
    ensures
        spec_list(s, pos) is Ok ==> ({
            let a = scan_end(s, pos, ByteClass::Whitespace);
            a < s.len() && s[a as int] == ('[' as u8)
        }),
{
    let a = scan_end(s, pos, ByteClass::Whitespace);
    lemma_one_byte_pat(s, a, '[' as u8);
    assert(lit_lbracket() =~= seq![('[' as u8)]);
}

/// Alternation order: at any position, at most one of the six grammar
/// alternatives succeeds.  JSON's first-character sets are disjoint —
/// the quote, sign or digit, brace, bracket, `t`/`f`, and `n` never
/// coincide, and none of them is whitespace — so reordering the
/// alternatives of [`spec_value`] could change only the offset a
/// failure reports, never which inputs are accepted or which value is
/// produced.
pub proof fn lemma_alternatives_mutually_exclusive(s: Seq<u8>, pos: nat)
    ensures
        spec_string(s, pos) is Ok ==> spec_number(s, pos) is Err && spec_object(s, pos) is Err
            && spec_list(s, pos) is Err && spec_boolean(s, pos) is Err && spec_null(s, pos) is Err,
        spec_number(s, pos) is Ok ==> spec_string(s, pos) is Err && spec_object(s, pos) is Err
            && spec_list(s, pos) is Err && spec_boolean(s, pos) is Err && spec_null(s, pos) is Err,
        spec_object(s, pos) is Ok ==> spec_string(s, pos) is Err && spec_number(s, pos) is Err
            && spec_list(s, pos) is Err && spec_boolean(s, pos) is Err && spec_null(s, pos) is Err,
        spec_list(s, pos) is Ok ==> spec_string(s, pos) is Err && spec_number(s, pos) is Err
            && spec_object(s, pos) is Err && spec_boolean(s, pos) is Err && spec_null(s, pos)
            is Err,
        spec_boolean(s, pos) is Ok ==> spec_string(s, pos) is Err && spec_number(s, pos) is Err
            && spec_object(s, pos) is Err && spec_list(s, pos) is Err && spec_null(s, pos) is Err,
        spec_null(s, pos) is Ok ==> spec_string(s, pos) is Err && spec_number(s, pos) is Err
            && spec_object(s, pos) is Err && spec_list(s, pos) is Err && spec_boolean(s, pos)
            is Err,
{
    lemma_string_head(s, pos);
    lemma_number_head(s, pos);
    lemma_boolean_head(s, pos);
    lemma_null_head(s, pos);
    lemma_object_head(s, pos);
    lemma_list_head(s, pos);
    if pos < s.len() && !is_ws_byte(s[pos as int]) {
        assert(scan_end(s, pos, ByteClass::Whitespace) == pos);
    }
}

/// The value rule accepts exactly the union of its six alternatives:
/// which alternatives exist, not the order they are tried in, decides
/// acceptance.
pub proof fn lemma_value_alternation(s: Seq<u8>, pos: nat)
    ensures
        spec_value(s, pos) is Ok <==> (spec_string(s, pos) is Ok || spec_number(s, pos) is Ok
            || spec_object(s, pos) is Ok || spec_list(s, pos) is Ok || spec_boolean(s, pos) is Ok
            || spec_null(s, pos) is Ok),
{
}

} // verus!
