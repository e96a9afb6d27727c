//! A JSON text parser built from small, composable parsing steps.
//!
//! Every parsing step is a pure function of the input text and a cursor
//! (a byte offset).  A step either succeeds, returning a value together
//! with an advanced cursor, or fails, reporting the byte offset at which
//! the input stopped matching.  Because no step ever mutates shared
//! state, a failed alternative can always be retried from the original
//! cursor, which makes backtracking trivially safe.
//!
//! The behaviour of every step is pinned down by a specification-level
//! grammar over the input's byte sequence (see [`model`]); the executable
//! functions are proved to return exactly what that grammar prescribes.

mod cursor;
mod engine;
mod grammar;
mod laws;
mod model;

pub use cursor::ByteClass;
pub use cursor::ParserError;
pub use cursor::Span;
pub use cursor::State;
pub use engine::bind;
pub use engine::fail;
pub use engine::optional;
pub use engine::or;
pub use engine::pat;
pub use engine::pat_ws;
pub use engine::span_text;
pub use engine::success;
pub use engine::take_while;
pub use grammar::boolean;
pub use grammar::decimal_part_number;
pub use grammar::from_str;
pub use grammar::json_value;
pub use grammar::key_value_pair;
pub use grammar::list;
pub use grammar::null;
pub use grammar::number;
pub use grammar::object;
pub use grammar::spaced_by;
pub use grammar::string;
pub use grammar::whole_part_number;
pub use grammar::Element;
pub use grammar::JsonValue;
pub use model::ElementKind;
pub use laws::lemma_alternatives_mutually_exclusive;
pub use laws::lemma_from_str_deterministic;
pub use laws::lemma_full_consumption;
pub use laws::lemma_value_alternation;
pub use model::Json;
