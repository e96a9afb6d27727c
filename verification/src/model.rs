//! The specification-level grammar: a mathematical description, over the
//! input's byte sequence, of what every parsing step returns.
//!
//! Each executable function of the library is proved to return exactly
//! what the corresponding `spec_` function here prescribes.  A result is
//! either `Ok((value, next))` — the parsed value together with the byte
//! offset of the first unconsumed byte — or `Err(offset)`, the byte
//! offset at which the input stopped matching.

use vstd::prelude::*;

use crate::cursor::ByteClass;
use crate::cursor::ParserError;
use crate::cursor::Span;
use crate::cursor::State;

verus! {

/// The mathematical JSON tree.  String and number values carry the bytes
/// of the matched text; an object is the sequence of its key-value
/// pairs, in input order, duplicates kept.
pub enum Json {
    Str(Seq<u8>),
    Num(Seq<u8>),
    Obj(Seq<(Seq<u8>, Json)>),
    Arr(Seq<Json>),
    Bool(bool),
    Null,
}

/// What one element of a separated repetition is: a key-value pair (an
/// object member) or a plain value (a list element).
#[derive(Debug, Clone, Copy, PartialEq, Eq, Structural)]
pub enum ElementKind {
    Pair,
    Value,
}

/// The mathematical counterpart of one element of a separated
/// repetition.
pub enum Elem {
    Pair(Seq<u8>, Json),
    Value(Json),
}

/// The key-value pair an element carries; meaningful only for
/// [`Elem::Pair`].
pub open spec fn elem_as_pair(e: Elem) -> (Seq<u8>, Json) {
    match e {
        Elem::Pair(k, v) => (k, v),
        Elem::Value(_) => arbitrary(),
    }
}

/// The value an element carries; meaningful only for [`Elem::Value`].
pub open spec fn elem_as_value(e: Elem) -> Json {
    match e {
        Elem::Value(v) => v,
        Elem::Pair(_, _) => arbitrary(),
    }
}

// ---------------------------------------------------------------------
// Byte classes
// ---------------------------------------------------------------------

/// ASCII whitespace: space, tab, line feed, vertical tab, form feed,
/// carriage return.
pub open spec fn is_ws_byte(b: u8) -> bool {
    b == 32 || 9 <= b <= 13
}

/// ASCII decimal digit.
pub open spec fn is_digit_byte(b: u8) -> bool {
    ('0' as u8) <= b <= ('9' as u8)
}

/// ASCII letter.
pub open spec fn is_alpha_byte(b: u8) -> bool {
    ('A' as u8) <= b <= ('Z' as u8) || ('a' as u8) <= b <= ('z' as u8)
}

/// Whether byte `b` belongs to class `c`.
pub open spec fn class_holds(c: ByteClass, b: u8) -> bool {
    match c {
        ByteClass::Whitespace => is_ws_byte(b),
        ByteClass::Digit => is_digit_byte(b),
        ByteClass::NotQuote => b != ('"' as u8),
        ByteClass::Alphabetic => is_alpha_byte(b),
    }
}

/// The end of the maximal run of bytes of class `c` that starts at
/// `pos`: the first offset at or after `pos` whose byte is not in the
/// class, or the end of the input.
pub open spec fn scan_end(s: Seq<u8>, pos: nat, c: ByteClass) -> nat
    decreases s.len() - pos,
{
    if pos < s.len() && class_holds(c, s[pos as int]) {
        scan_end(s, (pos + 1) as nat, c)
    } else {
        pos
    }
}

/// The defining properties of [`scan_end`]: it never moves backwards,
/// stays within the input, every byte of the run is in the class, and
/// the byte after the run (if any) is not.
pub proof fn lemma_scan_end(s: Seq<u8>, pos: nat, c: ByteClass)
    ensures
        pos <= scan_end(s, pos, c),
        pos <= s.len() ==> scan_end(s, pos, c) <= s.len(),
        forall|i: int| pos <= i < scan_end(s, pos, c) ==> class_holds(c, #[trigger] s[i]),
        scan_end(s, pos, c) < s.len() ==> !class_holds(c, s[scan_end(s, pos, c) as int]),
    decreases s.len() - pos,
{
    if pos < s.len() && class_holds(c, s[pos as int]) {
        lemma_scan_end(s, (pos + 1) as nat, c);
    }
}

// ---------------------------------------------------------------------
// The engine's primitives
// ---------------------------------------------------------------------

/// Literal match: succeeds exactly when the input at `pos` starts with
/// `p`, consuming `p`; otherwise fails at `pos`.
pub open spec fn spec_pat(s: Seq<u8>, pos: nat, p: Seq<u8>) -> Result<((nat, nat), nat), nat> {
    if pos + p.len() <= s.len() && s.subrange(pos as int, (pos + p.len()) as int) == p {
        Ok(((pos, (pos + p.len()) as nat), (pos + p.len()) as nat))
    } else {
        Err(pos)
    }
}

/// Matching a one-byte literal is exactly a comparison of the byte at
/// the cursor.
pub proof fn lemma_one_byte_pat(s: Seq<u8>, pos: nat, b: u8)
    ensures
        spec_pat(s, pos, seq![b]) == (if pos < s.len() && s[pos as int] == b {
            Ok::<((nat, nat), nat), nat>(((pos, (pos + 1) as nat), (pos + 1) as nat))
        } else {
            Err(pos)
        }),
{
    assert(seq![b].len() == 1);
    assert(seq![b][0] == b);
    if pos < s.len() {
        assert(s.subrange(pos as int, pos + 1 as int)[0] == s[pos as int]);
        if s[pos as int] == b {
            assert(s.subrange(pos as int, pos + 1 as int) =~= seq![b]);
        }
    }
}

/// Matching the empty literal always succeeds within the input,
/// consuming nothing.
pub proof fn lemma_empty_pat(s: Seq<u8>, pos: nat)
    ensures
        pos <= s.len() ==> spec_pat(s, pos, Seq::<u8>::empty()) == Ok::<((nat, nat), nat), nat>(
            ((pos, pos), pos),
        ),
        pos > s.len() ==> spec_pat(s, pos, Seq::<u8>::empty()) == Err::<((nat, nat), nat), nat>(
            pos,
        ),
{
    if pos <= s.len() {
        assert(s.subrange(pos as int, pos as int) =~= Seq::<u8>::empty());
    }
}

/// `p` surrounded by whitespace trimming: a run of whitespace, then the
/// literal `p`, then another run of whitespace.  The span is that of the
/// literal alone; the new cursor is past the trailing whitespace.
pub open spec fn spec_pat_ws(s: Seq<u8>, pos: nat, p: Seq<u8>) -> Result<((nat, nat), nat), nat> {
    let a = scan_end(s, pos, ByteClass::Whitespace);
    match spec_pat(s, a, p) {
        Ok((sp, n)) => Ok((sp, scan_end(s, n, ByteClass::Whitespace))),
        Err(e) => Err(e),
    }
}

/// Greedy scan: always succeeds, consuming the maximal run of bytes of
/// class `c` (possibly empty).
pub open spec fn spec_take_while(s: Seq<u8>, pos: nat, c: ByteClass) -> ((nat, nat), nat) {
    ((pos, scan_end(s, pos, c)), scan_end(s, pos, c))
}

/// The number's integer part: an optional minus sign, then a greedy
/// digit run.  An empty digit run fails; a run of two or more digits
/// whose first digit is zero fails (JSON forbids leading zeros); both
/// failures are reported at `pos`, where the rejected token began.
pub open spec fn spec_whole_part(s: Seq<u8>, pos: nat) -> Result<((nat, nat), nat), nat> {
    let sign_end = if pos < s.len() && s[pos as int] == ('-' as u8) {
        (pos + 1) as nat
    } else {
        pos
    };
    let dend = scan_end(s, sign_end, ByteClass::Digit);
    if dend == sign_end {
        Err(pos)
    } else if dend > sign_end + 1 && s[sign_end as int] == ('0' as u8) {
        Err(pos)
    } else {
        Ok(((pos, dend), dend))
    }
}

/// The number's fractional part: a dot, then a greedy digit run (which
/// may be empty).  Fails at `pos` when there is no dot.
pub open spec fn spec_decimal_part(s: Seq<u8>, pos: nat) -> Result<((nat, nat), nat), nat> {
    if pos < s.len() && s[pos as int] == ('.' as u8) {
        let dend = scan_end(s, (pos + 1) as nat, ByteClass::Digit);
        Ok(((pos, dend), dend))
    } else {
        Err(pos)
    }
}

// ---------------------------------------------------------------------
// Non-recursive grammar rules
// ---------------------------------------------------------------------

/// A JSON string: a double quote, the maximal run of non-quote bytes,
/// and a closing double quote.  No escape sequences are recognised: a
/// backslash is an ordinary byte.  The value carries the bytes between
/// the quotes.
pub open spec fn spec_string(s: Seq<u8>, pos: nat) -> Result<(Json, nat), nat> {
    if pos < s.len() && s[pos as int] == ('"' as u8) {
        let e = scan_end(s, (pos + 1) as nat, ByteClass::NotQuote);
        if e < s.len() {
            Ok((Json::Str(s.subrange((pos + 1) as int, e as int)), (e + 1) as nat))
        } else {
            Err(e)
        }
    } else {
        Err(pos)
    }
}

/// A JSON number: the integer part, then optionally the fractional
/// part.  The value carries the bytes of the whole matched text.  No
/// exponent notation is recognised.
pub open spec fn spec_number(s: Seq<u8>, pos: nat) -> Result<(Json, nat), nat> {
    match spec_whole_part(s, pos) {
        Err(e) => Err(e),
        Ok(((a, b), n)) => match spec_decimal_part(s, n) {
            Ok(((_c, d), n2)) => Ok((Json::Num(s.subrange(a as int, d as int)), n2)),
            Err(_) => Ok((Json::Num(s.subrange(a as int, b as int)), n)),
        },
    }
}

/// The bytes of the literal `true`.
pub open spec fn lit_true() -> Seq<u8> {
    seq![('t' as u8), ('r' as u8), ('u' as u8), ('e' as u8)]
}

/// The bytes of the literal `false`.
pub open spec fn lit_false() -> Seq<u8> {
    seq![('f' as u8), ('a' as u8), ('l' as u8), ('s' as u8), ('e' as u8)]
}

/// The bytes of the literal `null`.
pub open spec fn lit_null() -> Seq<u8> {
    seq![('n' as u8), ('u' as u8), ('l' as u8), ('l' as u8)]
}

/// A JSON boolean: the literal `true`, or else the literal `false`.
/// When both fail, the failure reported is the second alternative's,
/// at `pos`.
pub open spec fn spec_boolean(s: Seq<u8>, pos: nat) -> Result<(Json, nat), nat> {
    match spec_pat(s, pos, lit_true()) {
        Ok((_, n)) => Ok((Json::Bool(true), n)),
        Err(_) => match spec_pat(s, pos, lit_false()) {
            Ok((_, n)) => Ok((Json::Bool(false), n)),
            Err(e) => Err(e),
        },
    }
}

/// The JSON literal `null`.
pub open spec fn spec_null(s: Seq<u8>, pos: nat) -> Result<(Json, nat), nat> {
    match spec_pat(s, pos, lit_null()) {
        Ok((_, n)) => Ok((Json::Null, n)),
        Err(e) => Err(e),
    }
}

// ---------------------------------------------------------------------
// Bounds of the non-recursive rules (used for termination of the
// recursive ones)
// ---------------------------------------------------------------------

/// A successful [`spec_pat_ws`] lands past the literal and within the
/// input.
pub proof fn lemma_pat_ws_bounds(s: Seq<u8>, pos: nat, p: Seq<u8>)
    ensures
        spec_pat_ws(s, pos, p) matches Ok((sp, n)) ==> pos + p.len() <= n <= s.len(),
{
    lemma_scan_end(s, pos, ByteClass::Whitespace);
    let a = scan_end(s, pos, ByteClass::Whitespace);
    if spec_pat_ws(s, pos, p) is Ok {
        lemma_scan_end(s, (a + p.len()) as nat, ByteClass::Whitespace);
    }
}

/// A successful [`spec_string`] consumes at least its two quotes and
/// lands within the input.
pub proof fn lemma_string_bounds(s: Seq<u8>, pos: nat)
    ensures
        spec_string(s, pos) matches Ok((j, n)) ==> pos + 2 <= n <= s.len() && j is Str,
{
    if pos < s.len() && s[pos as int] == ('"' as u8) {
        lemma_scan_end(s, (pos + 1) as nat, ByteClass::NotQuote);
    }
}

/// A successful [`spec_number`] consumes at least one byte and lands
/// within the input.
pub proof fn lemma_number_bounds(s: Seq<u8>, pos: nat)
    ensures
        spec_number(s, pos) matches Ok((j, n)) ==> pos + 1 <= n <= s.len() && j is Num,
{
    let sign_end: nat = if pos < s.len() && s[pos as int] == ('-' as u8) {
        (pos + 1) as nat
    } else {
        pos
    };
    lemma_scan_end(s, sign_end, ByteClass::Digit);
    let dend = scan_end(s, sign_end, ByteClass::Digit);
    if spec_whole_part(s, pos) is Ok {
        lemma_scan_end(s, dend, ByteClass::Digit);
        if dend < s.len() && s[dend as int] == ('.' as u8) {
            lemma_scan_end(s, (dend + 1) as nat, ByteClass::Digit);
        }
    }
}

/// A successful [`spec_whole_part`] spans from `pos` to its new cursor,
/// which moved and stayed within the input.
pub proof fn lemma_whole_part_bounds(s: Seq<u8>, pos: nat)
    ensures
        spec_whole_part(s, pos) matches Ok(((a, b), n)) ==> a == pos && b == n && pos + 1 <= n
            <= s.len(),
{
    let sign_end: nat = if pos < s.len() && s[pos as int] == ('-' as u8) {
        (pos + 1) as nat
    } else {
        pos
    };
    lemma_scan_end(s, sign_end, ByteClass::Digit);
}

/// A successful [`spec_decimal_part`] spans from `pos` to its new
/// cursor, which moved and stayed within the input.
pub proof fn lemma_decimal_part_bounds(s: Seq<u8>, pos: nat)
    ensures
        spec_decimal_part(s, pos) matches Ok(((a, b), n)) ==> a == pos && b == n && pos + 1 <= n
            <= s.len(),
{
    if pos < s.len() && s[pos as int] == ('.' as u8) {
        lemma_scan_end(s, (pos + 1) as nat, ByteClass::Digit);
    }
}

/// A successful [`spec_boolean`] consumes its whole literal and lands
/// within the input.
pub proof fn lemma_boolean_bounds(s: Seq<u8>, pos: nat)
    ensures
        spec_boolean(s, pos) matches Ok((j, n)) ==> pos + 4 <= n <= s.len() && j is Bool,
{
}

/// A successful [`spec_null`] consumes its whole literal and lands
/// within the input.
pub proof fn lemma_null_bounds(s: Seq<u8>, pos: nat)
    ensures
        spec_null(s, pos) matches Ok((j, n)) ==> pos + 4 <= n <= s.len() && j is Null,
{
}

// ---------------------------------------------------------------------
// The recursive grammar
// ---------------------------------------------------------------------

/// The bytes of the separator used between object members and list
/// elements.
pub open spec fn lit_comma() -> Seq<u8> {
    seq![(',' as u8)]
}

/// Forward movement of a repetition step: keeps `n` when it lies
/// strictly between `lo` (exclusive) and `hi` (inclusive), and falls
/// back to `lo` otherwise.  Every grammar rule in fact moves strictly
/// forward and stays within the input (see [`lemma_value_bounds`]), so
/// the fallback never fires; it only makes termination of the
/// repetition's definition evident.
pub open spec fn step_pos(lo: nat, hi: nat, n: nat) -> nat {
    if lo < n <= hi {
        n
    } else {
        lo
    }
}

/// A key-value pair: a string key, a whitespace-trimmed colon, then a
/// value.
pub open spec fn spec_key_value(s: Seq<u8>, pos: nat) -> Result<((Seq<u8>, Json), nat), nat>
    decreases s.len() - pos, 0nat,
{
    match spec_string(s, pos) {
        Err(e) => Err(e),
        Ok((j, n1)) => {
            proof {
                lemma_string_bounds(s, pos);
                lemma_pat_ws_bounds(s, n1, seq![(':' as u8)]);
            }
            match spec_pat_ws(s, n1, seq![(':' as u8)]) {
                Err(e) => Err(e),
                Ok((_, n2)) => match spec_value(s, n2) {
                    Err(e) => Err(e),
                    Ok((v, n3)) => match j {
                        Json::Str(k) => Ok(((k, v), n3)),
                        _ => Err(pos),
                    },
                },
            }
        },
    }
}

/// One element of a separated repetition: a key-value pair or a plain
/// value, depending on `kind`.
pub open spec fn spec_elem(s: Seq<u8>, pos: nat, kind: ElementKind) -> Result<(Elem, nat), nat>
    decreases s.len() - pos, 3nat,
{
    match kind {
        ElementKind::Pair => match spec_key_value(s, pos) {
            Ok(((k, v), n)) => Ok((Elem::Pair(k, v), n)),
            Err(e) => Err(e),
        },
        ElementKind::Value => match spec_value(s, pos) {
            Ok((v, n)) => Ok((Elem::Value(v), n)),
            Err(e) => Err(e),
        },
    }
}

/// Separated repetition: one element, then repeatedly a separator
/// followed by another element.  Fails only when the very first element
/// fails; a separator after which no element follows is not consumed.
pub open spec fn spec_spaced_by(s: Seq<u8>, pos: nat, kind: ElementKind, sep: Seq<u8>) -> Result<
    (Seq<Elem>, nat),
    nat,
>
    decreases s.len() - pos, 4nat,
{
    match spec_elem(s, pos, kind) {
        Err(e) => Err(e),
        Ok((first, n)) => {
            let (rest, e) = spec_spaced_by_rest(s, step_pos(pos, s.len(), n), kind, sep);
            Ok((seq![first] + rest, e))
        },
    }
}

/// The repetition's tail at `pos`: as many `separator, element` steps as
/// succeed.  Stops — without consuming the separator — as soon as the
/// separator or the element after it fails.
pub open spec fn spec_spaced_by_rest(s: Seq<u8>, pos: nat, kind: ElementKind, sep: Seq<u8>) -> (
    Seq<Elem>,
    nat,
)
    decreases s.len() - pos, 0nat,
{
    match spec_pat_ws(s, pos, sep) {
        Err(_) => (Seq::empty(), pos),
        Ok((_, n2)) => {
            proof {
                lemma_pat_ws_bounds(s, pos, sep);
            }
            if pos < n2 <= s.len() {
                match spec_elem(s, n2, kind) {
                    Err(_) => (Seq::empty(), pos),
                    Ok((el, n3)) => {
                        let (rest, e) = spec_spaced_by_rest(s, step_pos(n2, s.len(), n3), kind, sep);
                        (seq![el] + rest, e)
                    },
                }
            } else {
                (Seq::empty(), pos)
            }
        },
    }
}

/// The bytes of the literal that opens an object.
pub open spec fn lit_lbrace() -> Seq<u8> {
    seq![('{' as u8)]
}

/// The bytes of the literal that closes an object.
pub open spec fn lit_rbrace() -> Seq<u8> {
    seq![('}' as u8)]
}

/// The bytes of the literal that opens a list.
pub open spec fn lit_lbracket() -> Seq<u8> {
    seq![('[' as u8)]
}

/// The bytes of the literal that closes a list.
pub open spec fn lit_rbracket() -> Seq<u8> {
    seq![(']' as u8)]
}

/// A JSON object: a whitespace-trimmed `{`, a possibly empty separated
/// repetition of key-value pairs, and a whitespace-trimmed `}`.  A
/// failing first pair is taken as "no pairs", so `{}` parses.
pub open spec fn spec_object(s: Seq<u8>, pos: nat) -> Result<(Json, nat), nat>
    decreases s.len() - pos, 1nat,
{
    match spec_pat_ws(s, pos, lit_lbrace()) {
        Err(e) => Err(e),
        Ok((_, n1)) => {
            proof {
                lemma_pat_ws_bounds(s, pos, lit_lbrace());
            }
            let (es, n2) = match spec_spaced_by(s, n1, ElementKind::Pair, lit_comma()) {
                Ok((es, n2)) => (es, n2),
                Err(_) => (Seq::<Elem>::empty(), n1),
            };
            match spec_pat_ws(s, n2, lit_rbrace()) {
                Err(e) => Err(e),
                Ok((_, n3)) => Ok((Json::Obj(es.map_values(|e: Elem| elem_as_pair(e))), n3)),
            }
        },
    }
}

/// A JSON list: a whitespace-trimmed `[`, a possibly empty separated
/// repetition of values, and a whitespace-trimmed `]`.  A failing first
/// element is taken as "no elements", so `[]` parses.
pub open spec fn spec_list(s: Seq<u8>, pos: nat) -> Result<(Json, nat), nat>
    decreases s.len() - pos, 1nat,
{
    match spec_pat_ws(s, pos, lit_lbracket()) {
        Err(e) => Err(e),
        Ok((_, n1)) => {
            proof {
                lemma_pat_ws_bounds(s, pos, lit_lbracket());
            }
            let (es, n2) = match spec_spaced_by(s, n1, ElementKind::Value, lit_comma()) {
                Ok((es, n2)) => (es, n2),
                Err(_) => (Seq::<Elem>::empty(), n1),
            };
            match spec_pat_ws(s, n2, lit_rbracket()) {
                Err(e) => Err(e),
                Ok((_, n3)) => Ok((Json::Arr(es.map_values(|e: Elem| elem_as_value(e))), n3)),
            }
        },
    }
}

/// A JSON value: the first of string, number, object, list, boolean,
/// null to succeed at `pos`.  When every alternative fails, the failure
/// is reported at `pos`.
pub open spec fn spec_value(s: Seq<u8>, pos: nat) -> Result<(Json, nat), nat>
    decreases s.len() - pos, 2nat,
{
    match spec_string(s, pos) {
        Ok(r) => Ok(r),
        Err(_) => match spec_number(s, pos) {
            Ok(r) => Ok(r),
            Err(_) => match spec_object(s, pos) {
                Ok(r) => Ok(r),
                Err(_) => match spec_list(s, pos) {
                    Ok(r) => Ok(r),
                    Err(_) => match spec_boolean(s, pos) {
                        Ok(r) => Ok(r),
                        Err(_) => match spec_null(s, pos) {
                            Ok(r) => Ok(r),
                            Err(_) => Err(pos),
                        },
                    },
                },
            },
        },
    }
}

/// The whole input as one JSON value: [`spec_value`] at offset zero,
/// which must consume every byte; a leftover byte fails at the offset
/// where parsing stopped.
pub open spec fn spec_from_str(s: Seq<u8>) -> Result<Json, nat> {
    match spec_value(s, 0) {
        Err(e) => Err(e),
        Ok((j, n)) => if n == s.len() {
            Ok(j)
        } else {
            Err(n)
        },
    }
}

// ---------------------------------------------------------------------
// Bounds of the recursive rules
// ---------------------------------------------------------------------

/// A successful value consumes at least one byte and lands within the
/// input; so do the rules it is built from, and the repetition never
/// moves backwards or out of the input.
pub proof fn lemma_value_bounds(s: Seq<u8>, pos: nat)
    ensures
        spec_value(s, pos) matches Ok((_, n)) ==> pos + 1 <= n <= s.len(),
    decreases s.len() - pos, 2nat,
{
    lemma_string_bounds(s, pos);
    lemma_number_bounds(s, pos);
    lemma_boolean_bounds(s, pos);
    lemma_null_bounds(s, pos);
    if spec_string(s, pos) is Err && spec_number(s, pos) is Err {
        lemma_object_bounds(s, pos);
        lemma_list_bounds(s, pos);
    }
}

/// A successful object consumes at least its two braces and lands
/// within the input.
pub proof fn lemma_object_bounds(s: Seq<u8>, pos: nat)
    ensures
        spec_object(s, pos) matches Ok((_, n)) ==> pos + 2 <= n <= s.len(),
    decreases s.len() - pos, 1nat,
{
    lemma_pat_ws_bounds(s, pos, lit_lbrace());
    match spec_pat_ws(s, pos, lit_lbrace()) {
        Ok((_sp, n1)) => {
            lemma_spaced_by_bounds(s, n1, ElementKind::Pair, lit_comma());
            let n2 = match spec_spaced_by(s, n1, ElementKind::Pair, lit_comma()) {
                Ok((_, n2)) => n2,
                Err(_) => n1,
            };
            lemma_pat_ws_bounds(s, n2, lit_rbrace());
        },
        Err(_) => {},
    }
}

/// A successful list consumes at least its two brackets and lands
/// within the input.
pub proof fn lemma_list_bounds(s: Seq<u8>, pos: nat)
    ensures
        spec_list(s, pos) matches Ok((_, n)) ==> pos + 2 <= n <= s.len(),
    decreases s.len() - pos, 1nat,
{
    lemma_pat_ws_bounds(s, pos, lit_lbracket());
    match spec_pat_ws(s, pos, lit_lbracket()) {
        Ok((_sp, n1)) => {
            lemma_spaced_by_bounds(s, n1, ElementKind::Value, lit_comma());
            let n2 = match spec_spaced_by(s, n1, ElementKind::Value, lit_comma()) {
                Ok((_, n2)) => n2,
                Err(_) => n1,
            };
            lemma_pat_ws_bounds(s, n2, lit_rbracket());
        },
        Err(_) => {},
    }
}

/// A successful key-value pair consumes at least its key and colon and
/// lands within the input.
pub proof fn lemma_key_value_bounds(s: Seq<u8>, pos: nat)
    ensures
        spec_key_value(s, pos) matches Ok((_, n)) ==> pos + 3 <= n <= s.len(),
    decreases s.len() - pos, 0nat,
{
    lemma_string_bounds(s, pos);
    match spec_string(s, pos) {
        Ok((_j, n1)) => {
            lemma_pat_ws_bounds(s, n1, seq![(':' as u8)]);
            match spec_pat_ws(s, n1, seq![(':' as u8)]) {
                Ok((_sp, n2)) => lemma_value_bounds(s, n2),
                Err(_) => {},
            }
        },
        Err(_) => {},
    }
}

/// A successful element consumes at least one byte and lands within the
/// input.
pub proof fn lemma_elem_bounds(s: Seq<u8>, pos: nat, kind: ElementKind)
    ensures
        spec_elem(s, pos, kind) matches Ok((_, n)) ==> pos + 1 <= n <= s.len(),
    decreases s.len() - pos, 3nat,
{
    match kind {
        ElementKind::Pair => lemma_key_value_bounds(s, pos),
        ElementKind::Value => lemma_value_bounds(s, pos),
    }
}

/// A successful repetition consumes at least one byte, lands within the
/// input, and yields at least one element.
pub proof fn lemma_spaced_by_bounds(s: Seq<u8>, pos: nat, kind: ElementKind, sep: Seq<u8>)
    ensures
        spec_spaced_by(s, pos, kind, sep) matches Ok((es, n)) ==> pos + 1 <= n <= s.len()
            && es.len() >= 1,
    decreases s.len() - pos, 4nat,
{
    lemma_elem_bounds(s, pos, kind);
    match spec_elem(s, pos, kind) {
        Ok((_el, n)) => lemma_spaced_by_rest_bounds(s, step_pos(pos, s.len(), n), kind, sep),
        Err(_) => {},
    }
}

/// The repetition's tail never moves backwards and lands within the
/// input.
pub proof fn lemma_spaced_by_rest_bounds(s: Seq<u8>, pos: nat, kind: ElementKind, sep: Seq<u8>)
    ensures
        pos <= spec_spaced_by_rest(s, pos, kind, sep).1,
        pos <= s.len() ==> spec_spaced_by_rest(s, pos, kind, sep).1 <= s.len(),
    decreases s.len() - pos, 0nat,
{
    lemma_pat_ws_bounds(s, pos, sep);
    match spec_pat_ws(s, pos, sep) {
        Ok((_sp, n2)) => {
            if pos < n2 <= s.len() {
                lemma_elem_bounds(s, n2, kind);
                match spec_elem(s, n2, kind) {
                    Ok((_el, n3)) => lemma_spaced_by_rest_bounds(
                        s,
                        step_pos(n2, s.len(), n3),
                        kind,
                        sep,
                    ),
                    Err(_) => {},
                }
            }
        },
        Err(_) => {},
    }
}

/// Whether an element is of the shape `kind` announces.
pub open spec fn elem_matches_kind(e: Elem, kind: ElementKind) -> bool {
    match kind {
        ElementKind::Pair => e is Pair,
        ElementKind::Value => e is Value,
    }
}

/// Every element a repetition yields is of the shape its `kind`
/// announces: key-value pairs for an object, plain values for a list.
pub proof fn lemma_spaced_by_kind(s: Seq<u8>, pos: nat, kind: ElementKind, sep: Seq<u8>)
    ensures
        spec_spaced_by(s, pos, kind, sep) matches Ok((es, n)) ==> forall|i: int|
            0 <= i < es.len() ==> elem_matches_kind(#[trigger] es[i], kind),
    decreases s.len() - pos, 4nat,
{
    match spec_elem(s, pos, kind) {
        Ok((el, n)) => {
            lemma_spaced_by_rest_kind(s, step_pos(pos, s.len(), n), kind, sep);
            let (rt, _re) = spec_spaced_by_rest(s, step_pos(pos, s.len(), n), kind, sep);
            let es = seq![el] + rt;
            assert forall|i: int| 0 <= i < es.len() implies elem_matches_kind(es[i], kind) by {
                if i == 0 {
                    assert(es[0] == el);
                } else {
                    assert(es[i] == rt[i - 1]);
                }
            }
        },
        Err(_) => {},
    }
}

/// Every element the repetition's tail yields is of the shape its
/// `kind` announces.
pub proof fn lemma_spaced_by_rest_kind(s: Seq<u8>, pos: nat, kind: ElementKind, sep: Seq<u8>)
    ensures
        forall|i: int|
            0 <= i < spec_spaced_by_rest(s, pos, kind, sep).0.len() ==> elem_matches_kind(
                #[trigger] spec_spaced_by_rest(s, pos, kind, sep).0[i],
                kind,
            ),
    decreases s.len() - pos, 0nat,
{
    lemma_pat_ws_bounds(s, pos, sep);
    match spec_pat_ws(s, pos, sep) {
        Ok((_sp, n2)) => {
            if pos < n2 <= s.len() {
                match spec_elem(s, n2, kind) {
                    Ok((el, n3)) => {
                        lemma_spaced_by_rest_kind(s, step_pos(n2, s.len(), n3), kind, sep);
                        let (rt2, _re2) = spec_spaced_by_rest(s, step_pos(n2, s.len(), n3), kind, sep);
                        let es = seq![el] + rt2;
                        assert forall|i: int| 0 <= i < es.len() implies elem_matches_kind(
                            es[i],
                            kind,
                        ) by {
                            if i == 0 {
                                assert(es[0] == el);
                            } else {
                                assert(es[i] == rt2[i - 1]);
                            }
                        }
                    },
                    Err(_) => {},
                }
            }
        },
        Err(_) => {},
    }
}

// ---------------------------------------------------------------------
// Relating executable results to specification results
// ---------------------------------------------------------------------

/// The executable result `r` is exactly what the specification result
/// `sr` prescribes: same success or failure, same span, same new cursor,
/// same failure offset.
pub open spec fn span_result_matches(
    r: Result<(Span, State), ParserError>,
    sr: Result<((nat, nat), nat), nat>,
) -> bool {
    match (r, sr) {
        (Ok((sp, st)), Ok(((a, b), n))) => sp.start == a && sp.end == b && st.current == n,
        (Err(ParserError::NoParse(o)), Err(e)) => o == e,
        _ => false,
    }
}

} // verus!
