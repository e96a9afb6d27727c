//! The executable parsing primitives.
//!
//! Every primitive is a pure function of the input text and a cursor
//! [`State`]; it returns either a matched [`Span`] (or value) with an
//! advanced cursor, or a [`ParserError`] carrying the byte offset at
//! which matching stopped.  Each is proved to return exactly what the
//! corresponding specification function in [`crate::model`] prescribes.

use vstd::prelude::*;
use vstd::slice::slice_subrange;
use vstd::slice::slice_to_vec;
use vstd::string::StringSliceAdditionalSpecFns;

use crate::cursor::ByteClass;
use crate::cursor::ParserError;
use crate::cursor::Span;
use crate::cursor::State;
use crate::model::class_holds;
use crate::model::lemma_scan_end;
use crate::model::scan_end;
use crate::model::span_result_matches;
use crate::model::spec_pat;
use crate::model::spec_pat_ws;
use crate::model::spec_take_while;

verus! {

/// Whether byte `b` belongs to class `c` (the executable counterpart of
/// [`class_holds`]).
fn byte_in_class(c: ByteClass, b: u8) -> (r: bool)
    ensures
        r == class_holds(c, b),
{
    match c {
        ByteClass::Whitespace => b == 32 || (9 <= b && b <= 13),
        ByteClass::Digit => ('0' as u8) <= b && b <= ('9' as u8),
        ByteClass::NotQuote => b != ('"' as u8),
        ByteClass::Alphabetic => (('A' as u8) <= b && b <= ('Z' as u8)) || (('a' as u8) <= b && b
            <= ('z' as u8)),
    }
}

/// Literal match: succeeds exactly when the input at the cursor starts
/// with `pattern`, advancing the cursor past it; otherwise fails at the
/// cursor.
pub fn pat(pattern: &str, input: &str, state: State) -> (r: Result<(Span, State), ParserError>)
    requires
        state.current <= input.spec_bytes().len(),
    ensures
        span_result_matches(
            r,
            spec_pat(input.spec_bytes(), state.current as nat, pattern.spec_bytes()),
        ),
{
    let b = input.as_bytes();
    let p = pattern.as_bytes();
    let cur = state.current;
    if p.len() <= b.len() - cur {
        let mut i: usize = 0;
        while i < p.len()
            invariant
                0 <= i <= p@.len(),
                cur + p@.len() <= b@.len() <= usize::MAX,
                b@ == input.spec_bytes(),
                p@ == pattern.spec_bytes(),
                cur == state.current,
                forall|j: int| 0 <= j < i ==> b@[cur + j] == p@[j],
            decreases p@.len() - i,
        {
            if b[cur + i] != p[i] {
                proof {
                    assert(b@.subrange(cur as int, cur + p@.len())[i as int] == b@[cur + i]);
                }
                return Err(ParserError::NoParse(cur));
            }
            i += 1;
        }
        proof {
            assert(b@.subrange(cur as int, cur + p@.len()) =~= p@);
        }
        Ok((Span { start: cur, end: cur + p.len() }, State { current: cur + p.len() }))
    } else {
        Err(ParserError::NoParse(cur))
    }
}

/// Greedy scan: always succeeds, consuming the maximal run of bytes of
/// class `class` starting at the cursor (possibly empty).  Every class
/// is ASCII-bounded, so the run never ends inside a multi-byte UTF-8
/// character.
pub fn take_while(class: ByteClass, input: &str, state: State) -> (r: Result<
    (Span, State),
    ParserError,
>)
    requires
        state.current <= input.spec_bytes().len(),
    ensures
        span_result_matches(
            r,
            Ok(spec_take_while(input.spec_bytes(), state.current as nat, class)),
        ),
{
    let b = input.as_bytes();
    let mut i: usize = state.current;
    while i < b.len() && byte_in_class(class, b[i])
        invariant
            state.current <= i <= b@.len(),
            b@ == input.spec_bytes(),
            scan_end(b@, state.current as nat, class) == scan_end(b@, i as nat, class),
        decreases b@.len() - i,
    {
        i += 1;
    }
    Ok((Span { start: state.current, end: i }, State { current: i }))
}

/// Alternation: the first result when it is a success, otherwise the
/// second.  Because every primitive is pure, the second alternative is
/// simply evaluated from the same original cursor.
pub fn or<R>(first: Result<(R, State), ParserError>, second: Result<(R, State), ParserError>) -> (r:
    Result<(R, State), ParserError>)
    ensures
        first is Ok ==> r == first,
        first is Err ==> r == second,
{
    match first {
        Ok(x) => Ok(x),
        Err(_) => second,
    }
}

/// Sequencing: feeds a successful result and its cursor to `f`, which
/// runs the next parsing step from there; a failure short-circuits
/// unchanged.
pub fn bind<R, RR, F: Fn(R, State) -> Result<(RR, State), ParserError>>(
    parsed: Result<(R, State), ParserError>,
    f: F,
) -> (r: Result<(RR, State), ParserError>)
    requires
        parsed matches Ok((v, st)) ==> call_requires(f, (v, st)),
    ensures
        parsed matches Err(e) ==> r == Err::<(RR, State), ParserError>(e),
        parsed matches Ok((v, st)) ==> call_ensures(f, (v, st), r),
{
    match parsed {
        Ok((v, st)) => f(v, st),
        Err(e) => Err(e),
    }
}

/// Always succeeds with the given value, consuming nothing.
pub fn success<R>(value: R, state: State) -> (r: Result<(R, State), ParserError>)
    ensures
        r matches Ok((v, st)) && v == value && st == state,
{
    Ok((value, state))
}

/// Always fails, at the cursor, or — given an unwind count — that many
/// bytes before it, so that an error can be reported where a rejected
/// token began rather than where its invalidity was detected.
pub fn fail<R>(unwind: Option<usize>, state: State) -> (r: Result<(R, State), ParserError>)
    requires
        unwind matches Some(u) ==> u <= state.current,
    ensures
        r matches Err(e) && e == (match unwind {
            Some(u) => ParserError::NoParse((state.current - u) as usize),
            None => ParserError::NoParse(state.current),
        }),
{
    match unwind {
        Some(u) => Err(ParserError::NoParse(state.current - u)),
        None => Err(ParserError::NoParse(state.current)),
    }
}

/// Turns failure into success: a successful result is kept (wrapped in
/// `Some`) with its advanced cursor, and a failure becomes `None` at the
/// original cursor.
pub fn optional<R>(parsed: Result<(R, State), ParserError>, state: State) -> (r: Result<
    (Option<R>, State),
    ParserError,
>)
    ensures
        r matches Ok((o, st2)) && (match parsed {
            Ok((v, st)) => o == Some(v) && st2 == st,
            Err(_) => o is None && st2 == state,
        }),
{
    match parsed {
        Ok((v, st)) => Ok((Some(v), st)),
        Err(_) => Ok((None, state)),
    }
}

/// The literal `pattern` with whitespace trimmed on both sides: a run
/// of whitespace, the literal, another run of whitespace.  The span is
/// the literal's alone; the cursor ends past the trailing whitespace.
pub fn pat_ws(pattern: &str, input: &str, state: State) -> (r: Result<(Span, State), ParserError>)
    requires
        state.current <= input.spec_bytes().len(),
    ensures
        span_result_matches(
            r,
            spec_pat_ws(input.spec_bytes(), state.current as nat, pattern.spec_bytes()),
        ),
{
    let s = Ghost(input.spec_bytes());
    let (_ws1, st1) = match take_while(ByteClass::Whitespace, input, state) {
        Ok(x) => x,
        Err(e) => return Err(e),
    };
    proof {
        lemma_scan_end(s@, state.current as nat, ByteClass::Whitespace);
    }
    let (sp, st2) = match pat(pattern, input, st1) {
        Ok(x) => x,
        Err(e) => return Err(e),
    };
    let (_ws2, st3) = match take_while(ByteClass::Whitespace, input, st2) {
        Ok(x) => x,
        Err(e) => return Err(e),
    };
    Ok((sp, st3))
}

/// Fuses two adjacent matched spans into one span covering both — the
/// zero-copy merge.  Adjacency (the second span starts exactly where
/// the first ends) is demanded of every caller and holds by
/// construction wherever one piece is parsed starting where the
/// previous piece ended.
pub(crate) fn merge_spans(first: Span, second: Span) -> (r: Span)
    requires
        first.end == second.start,
    ensures
        r.start == first.start && r.end == second.end,
{
    Span { start: first.start, end: second.end }
}

/// The bytes a span covers, copied out of the input.
pub fn span_text(input: &str, span: Span) -> (r: Vec<u8>)
    requires
        span.start <= span.end <= input.spec_bytes().len(),
    ensures
        r@ == input.spec_bytes().subrange(span.start as int, span.end as int),
{
    let b = input.as_bytes();
    let sub = slice_subrange(b, span.start, span.end);
    slice_to_vec(sub)
}

} // verus!
