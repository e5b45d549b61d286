//! A minimal line-oriented text search library.
//!
//! Given a block of text and a literal pattern, the core routine
//! [`find_matches`] emits every line that contains the pattern, in the
//! original order, to a caller-supplied [`Sink`].

use vstd::prelude::*;

mod matcher;
mod sink;
mod text;

pub use matcher::find_matches;
pub use sink::Sink;
pub use sink::StringSink;
pub use sink::WriteError;
pub use text::expected_output;
pub use text::is_match_at;
pub use text::lemma_empty_content;
pub use text::lemma_empty_pattern;
pub use text::lemma_output_deterministic;
pub use text::lemma_pattern_absent;
pub use text::lemma_render_round_trip;
pub use text::lemma_trailing_terminator;
pub use text::line_matches;
pub use text::lines_of;
pub use text::matching_lines;
pub use text::rendered;

verus! {

/// Has no observable behavior.
pub fn pizza_roo() {
}

/// Has no observable behavior.
pub fn example() {
}

/// A named person.
#[allow(dead_code)]
pub struct Jubilee {
    name: String,
    age: u32,
}

/// A mood.
pub enum EnumExample {
    Happy,
    Sad,
}

} // verus!
